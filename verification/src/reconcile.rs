//! Tag reconciliation: what has to change in the metadata store so that the
//! tags it associates with a note are the tags that the note declares.

use vstd::prelude::*;
use vstd::multiset::Multiset;
use vstd::seq_lib::{to_multiset_build, to_multiset_contains};
use crate::tag::{StoredTag, StoredTagView};
use crate::text::{chars_of, string_of, string_views, views};

verus! {

/// How two texts stand to each other in the order of the dictionary.
#[derive(Clone, Copy, Debug, PartialEq, Eq, Structural)]
pub enum Order {
    Before,
    Same,
    After,
}

/// The order of the dictionary, by code point: whether `a` comes before `b`
/// or is `b`.
pub open spec fn lex_leq(a: Seq<char>, b: Seq<char>) -> bool
    decreases a.len(),
{
    if a.len() == 0 {
        true
    } else if b.len() == 0 {
        false
    } else if a[0] != b[0] {
        a[0] < b[0]
    } else {
        lex_leq(a.drop_first(), b.drop_first())
    }
}

/// Whether each text comes before the texts after it, or is the same.
pub open spec fn is_sorted(s: Seq<Seq<char>>) -> bool {
    forall|i: int, j: int| 0 <= i < j < s.len() ==> lex_leq(#[trigger] s[i], #[trigger] s[j])
}

/// Every text is itself.
pub proof fn lemma_lex_reflexive(a: Seq<char>)
    ensures
        lex_leq(a, a),
    decreases a.len(),
{
    if a.len() > 0 {
        lemma_lex_reflexive(a.drop_first());
    }
}

/// What comes before a text comes before what that text comes before.
pub proof fn lemma_lex_transitive(a: Seq<char>, b: Seq<char>, c: Seq<char>)
    requires
        lex_leq(a, b),
        lex_leq(b, c),
    ensures
        lex_leq(a, c),
    decreases a.len(),
{
    if a.len() > 0 {
        assert(b.len() > 0 && c.len() > 0);
        if a[0] == b[0] && b[0] == c[0] {
            lemma_lex_transitive(a.drop_first(), b.drop_first(), c.drop_first());
        }
    }
}

/// How `a` stands to `b` in the order of the dictionary.
pub fn order_of(a: &Vec<char>, b: &Vec<char>) -> (r: Order)
    ensures
        r == Order::Before ==> lex_leq(a@, b@) && !lex_leq(b@, a@),
        r == Order::Same ==> a@ == b@,
        r == Order::After ==> lex_leq(b@, a@) && !lex_leq(a@, b@),
{
    let mut i: usize = 0;
    assert(a@.skip(0) =~= a@);
    assert(b@.skip(0) =~= b@);
    while i < a.len() && i < b.len()
        invariant
            i <= a.len(),
            i <= b.len(),
            a@.take(i as int) == b@.take(i as int),
            lex_leq(a@, b@) == lex_leq(a@.skip(i as int), b@.skip(i as int)),
            lex_leq(b@, a@) == lex_leq(b@.skip(i as int), a@.skip(i as int)),
        decreases a.len() - i,
    {
        let x = a[i];
        let y = b[i];
        assert(a@.skip(i as int).drop_first() =~= a@.skip(i as int + 1));
        assert(b@.skip(i as int).drop_first() =~= b@.skip(i as int + 1));
        assert(a@.skip(i as int)[0] == a@[i as int]);
        assert(b@.skip(i as int)[0] == b@[i as int]);
        if x < y {
            return Order::Before;
        }
        if x > y {
            return Order::After;
        }
        assert(a@[i as int] == b@[i as int]);
        assert(a@.take(i as int + 1) =~= a@.take(i as int).push(a@[i as int]));
        assert(b@.take(i as int + 1) =~= b@.take(i as int).push(b@[i as int]));
        i += 1;
    }
    if i < b.len() {
        Order::Before
    } else if i < a.len() {
        Order::After
    } else {
        assert(a@.take(i as int) =~= a@);
        assert(b@.take(i as int) =~= b@);
        Order::Same
    }
}

/// The names in the order of the dictionary, each once.
pub fn sorted_names(names: &Vec<String>) -> (r: Vec<Vec<char>>)
    ensures
        is_sorted(views(r@)),
        views(r@).no_duplicates(),
        views(r@).to_set() == string_views(names@).to_set(),
{
    let mut out: Vec<Vec<char>> = Vec::new();
    let mut i: usize = 0;
    assert(views(out@).to_set() =~= string_views(names@).take(0).to_set());
    while i < names.len()
        invariant
            i <= names.len(),
            is_sorted(views(out@)),
            views(out@).no_duplicates(),
            views(out@).to_set() == string_views(names@).take(i as int).to_set(),
        decreases names.len() - i,
    {
        let name = chars_of(names[i].as_str());
        let ghost before = views(out@);
        let ghost seen = string_views(names@).take(i as int);
        let ghost now = string_views(names@).take(i as int + 1);
        proof {
            lemma_lex_reflexive(name@);
            assert(now =~= seen.push(name@));
            assert forall|x: Seq<char>| now.contains(x) <==> (seen.contains(x) || x == name@) by {
                if now.contains(x) {
                    let k = choose|k: int| 0 <= k < now.len() && now[k] == x;
                    if k < seen.len() {
                        assert(seen[k] == x);
                    }
                }
                if seen.contains(x) {
                    let k = choose|k: int| 0 <= k < seen.len() && seen[k] == x;
                    assert(now[k] == x);
                }
                assert(now[seen.len() as int] == name@);
            }
        }
        let mut at: usize = 0;
        let mut known = false;
        while at < out.len()
            invariant_except_break
                at <= out.len(),
                !known,
                forall|k: int|
                    0 <= k < at ==> lex_leq(#[trigger] views(out@)[k], name@) && views(out@)[k]
                        != name@,
            ensures
                at <= out.len(),
                forall|k: int|
                    0 <= k < at ==> lex_leq(#[trigger] views(out@)[k], name@) && views(out@)[k]
                        != name@,
                known ==> at < out.len() && views(out@)[at as int] == name@,
                !known && at < out.len() ==> lex_leq(name@, views(out@)[at as int]) && !lex_leq(
                    views(out@)[at as int],
                    name@,
                ),
            decreases out.len() - at,
        {
            match order_of(&out[at], &name) {
                Order::Before => {},
                Order::Same => {
                    known = true;
                    break ;
                },
                Order::After => {
                    break ;
                },
            }
            at += 1;
        }
        if known {
            proof {
                assert(before.contains(name@));
                assert(before.to_set().contains(name@));
                assert forall|x: Seq<char>| now.to_set().contains(x) <==> seen.to_set().contains(
                    x,
                ) by {
                    assert(now.contains(x) <==> (seen.contains(x) || x == name@));
                }
                assert(now.to_set() =~= seen.to_set());
            }
        } else {
            proof {
                assert forall|k: int| at <= k < before.len() implies lex_leq(
                    name@,
                    #[trigger] before[k],
                ) && before[k] != name@ by {
                    if k > at {
                        assert(lex_leq(before[at as int], before[k]));
                        lemma_lex_transitive(name@, before[at as int], before[k]);
                    }
                }
            }
            out.insert(at, name);
            proof {
                let after = views(out@);
                assert(after =~= before.insert(at as int, name@));
                assert forall|x: int, y: int| 0 <= x < y < after.len() implies lex_leq(
                    #[trigger] after[x],
                    #[trigger] after[y],
                ) && after[x] != after[y] by {
                    if x < at && y > at {
                        assert(lex_leq(before[x], before[y - 1]));
                        assert(before[x] != before[y - 1]);
                    } else if x < at && y < at {
                        assert(lex_leq(before[x], before[y]));
                        assert(before[x] != before[y]);
                    } else if x > at {
                        assert(lex_leq(before[x - 1], before[y - 1]));
                        assert(before[x - 1] != before[y - 1]);
                    } else if x == at {
                        assert(after[y] == before[y - 1]);
                    } else {
                        assert(after[x] == before[x]);
                    }
                }
                assert forall|x: Seq<char>| after.contains(x) <==> (before.contains(x) || x
                    == name@) by {
                    if after.contains(x) {
                        let k = choose|k: int| 0 <= k < after.len() && after[k] == x;
                        if k < at {
                            assert(before[k] == x);
                        } else if k > at {
                            assert(before[k - 1] == x);
                        }
                    }
                    if before.contains(x) {
                        let k = choose|k: int| 0 <= k < before.len() && before[k] == x;
                        if k < at {
                            assert(after[k] == x);
                        } else {
                            assert(after[k + 1] == x);
                        }
                    }
                    assert(after[at as int] == name@);
                }
                assert forall|x: Seq<char>| after.to_set().contains(x) <==> now.to_set().contains(
                    x,
                ) by {
                    assert(before.to_set().contains(x) <==> seen.to_set().contains(x));
                    assert(now.contains(x) <==> (seen.contains(x) || x == name@));
                }
                assert(after.to_set() =~= now.to_set());
            }
        }
        i += 1;
    }
    assert(string_views(names@).take(names.len() as int) =~= string_views(names@));
    out
}

/// A position of `name` among sorted names, if it is among them.
pub fn find_name(names: &Vec<Vec<char>>, name: &Vec<char>) -> (r: Option<usize>)
    requires
        is_sorted(views(names@)),
    ensures
        r is Some ==> r->0 < names.len() && names@[r->0 as int]@ == name@,
        r is None ==> !views(names@).contains(name@),
{
    let mut low: usize = 0;
    let mut high: usize = names.len();
    while low < high
        invariant
            low <= high <= names.len(),
            is_sorted(views(names@)),
            forall|k: int| 0 <= k < low ==> (#[trigger] views(names@)[k]) != name@,
            forall|k: int| high <= k < names.len() ==> (#[trigger] views(names@)[k]) != name@,
        decreases high - low,
    {
        let mid = low + (high - low) / 2;
        let ghost all = views(names@);
        proof {
            lemma_lex_reflexive(name@);
        }
        match order_of(&names[mid], name) {
            Order::Same => {
                return Some(mid);
            },
            Order::Before => {
                assert forall|k: int| 0 <= k < mid + 1 implies (#[trigger] all[k]) != name@ by {
                    if low <= k < mid {
                        assert(lex_leq(all[k], all[mid as int]));
                    }
                }
                low = mid + 1;
            },
            Order::After => {
                assert forall|k: int| mid <= k < names.len() implies (#[trigger] all[k])
                    != name@ by {
                    if mid < k < high {
                        assert(lex_leq(all[mid as int], all[k]));
                    }
                }
                high = mid;
            },
        }
    }
    assert forall|k: int| 0 <= k < names.len() implies (#[trigger] views(names@)[k]) != name@ by {}
    None
}

/// The stored tags that a vector holds, as mathematical values.
pub open spec fn stored_views(v: Seq<StoredTag>) -> Seq<StoredTagView> {
    Seq::new(v.len(), |i: int| v[i]@)
}

/// The names of stored tags.
pub open spec fn names_of(tags: Seq<StoredTagView>) -> Seq<Seq<char>> {
    Seq::new(tags.len(), |i: int| tags[i].name)
}

/// What reconciliation decides, as mathematics: the associations that stay,
/// those that go, and the declared names that are left without one.
pub struct PlanView {
    pub kept: Seq<StoredTagView>,
    pub removed: Seq<StoredTagView>,
    pub left: Set<Seq<char>>,
}

/// What reconciliation decides. The declared names count as a set: a name
/// declared twice is declared. The associations that the store holds are
/// taken in order. One whose tag name is among the declared names not yet
/// matched stays, and matches that name; any other goes. The declared names
/// that nothing matched are left, and each needs an association of its own.
pub open spec fn reconcile(declared: Set<Seq<char>>, persisted: Seq<StoredTagView>) -> PlanView
    decreases persisted.len(),
{
    if persisted.len() == 0 {
        PlanView { kept: seq![], removed: seq![], left: declared }
    } else {
        let before = reconcile(declared, persisted.drop_last());
        let tag = persisted.last();
        if before.left.contains(tag.name) {
            PlanView {
                kept: before.kept.push(tag),
                removed: before.removed,
                left: before.left.remove(tag.name),
            }
        } else {
            PlanView { kept: before.kept, removed: before.removed.push(tag), left: before.left }
        }
    }
}

/// The tag names that the store associates with the note once a plan has been
/// carried out, each as often as it does: those it held, without those of
/// the associations removed, and those of the associations added.
pub open spec fn associations_after(
    persisted: Seq<StoredTagView>,
    removed: Seq<StoredTagView>,
    added: Seq<Seq<char>>,
) -> Multiset<Seq<char>> {
    names_of(persisted).to_multiset().sub(names_of(removed).to_multiset()).add(added.to_multiset())
}

/// The colour of a tag that reconciliation creates.
pub open spec fn created_color() -> Seq<char> {
    seq!['r', 'a', 'n', 'd', 'o', 'm']
}

/// What reconciliation decides for one note.
pub struct ReconcilePlan {
    /// The associations that stay, in the order in which the store held them.
    pub kept: Vec<StoredTag>,
    /// The associations to delete, in the order in which the store held them.
    pub removed: Vec<StoredTag>,
    /// The declared names that need an association, each once, in the order
    /// of the dictionary.
    pub wanted: Vec<String>,
}

impl ReconcilePlan {
    /// Decides what has to change in the store so that a note is associated
    /// with the tags it declares: see [`reconcile`]. The plan depends neither
    /// on the order of the declared names nor on how often a name is declared.
    pub fn new(declared: &Vec<String>, persisted: &Vec<StoredTag>) -> (plan: ReconcilePlan)
        ensures
            stored_views(plan.kept@) == reconcile(
                string_views(declared@).to_set(),
                stored_views(persisted@),
            ).kept,
            stored_views(plan.removed@) == reconcile(
                string_views(declared@).to_set(),
                stored_views(persisted@),
            ).removed,
            string_views(plan.wanted@).to_set() == reconcile(
                string_views(declared@).to_set(),
                stored_views(persisted@),
            ).left,
            string_views(plan.wanted@).no_duplicates(),
            is_sorted(string_views(plan.wanted@)),
    {
        let ghost wanted = string_views(declared@).to_set();
        let ghost held = stored_views(persisted@);
        let mut remaining = sorted_names(declared);
        let mut kept: Vec<StoredTag> = Vec::new();
        let mut removed: Vec<StoredTag> = Vec::new();
        let mut i: usize = 0;
        assert(held.take(0) =~= Seq::<StoredTagView>::empty());
        assert(stored_views(kept@) =~= Seq::<StoredTagView>::empty());
        assert(stored_views(removed@) =~= Seq::<StoredTagView>::empty());
        while i < persisted.len()
            invariant
                i <= persisted.len(),
                held == stored_views(persisted@),
                is_sorted(views(remaining@)),
                views(remaining@).no_duplicates(),
                stored_views(kept@) == reconcile(wanted, held.take(i as int)).kept,
                stored_views(removed@) == reconcile(wanted, held.take(i as int)).removed,
                views(remaining@).to_set() == reconcile(wanted, held.take(i as int)).left,
            decreases persisted.len() - i,
        {
            let name = chars_of(persisted[i].name.as_str());
            let ghost left = views(remaining@);
            let ghost kept_before = stored_views(kept@);
            let ghost removed_before = stored_views(removed@);
            proof {
                assert(held.take(i as int + 1).drop_last() =~= held.take(i as int));
                assert(held.take(i as int + 1).last() == persisted@[i as int]@);
            }
            match find_name(&remaining, &name) {
                Some(at) => {
                    assert(left[at as int] == name@);
                    assert(left.contains(name@));
                    let _ = remaining.remove(at);
                    kept.push(persisted[i].clone());
                    proof {
                        let after = views(remaining@);
                        assert(after =~= left.remove(at as int));
                        assert forall|x: Seq<char>| after.contains(x) <==> (left.contains(x) && x
                            != name@) by {
                            if after.contains(x) {
                                let k = choose|k: int| 0 <= k < after.len() && after[k] == x;
                                if k < at {
                                    assert(left[k] == x);
                                } else {
                                    assert(left[k + 1] == x);
                                }
                            }
                            if left.contains(x) && x != name@ {
                                let k = choose|k: int| 0 <= k < left.len() && left[k] == x;
                                if k < at {
                                    assert(after[k] == x);
                                } else {
                                    assert(after[k - 1] == x);
                                }
                            }
                        }
                        assert(after.to_set() =~= left.to_set().remove(name@));
                        assert forall|x: int, y: int| 0 <= x < y < after.len() implies lex_leq(
                            #[trigger] after[x],
                            #[trigger] after[y],
                        ) by {
                            let a = if x < at { x } else { x + 1 };
                            let b = if y < at { y } else { y + 1 };
                            assert(lex_leq(left[a], left[b]));
                        }
                        assert(stored_views(kept@) =~= kept_before.push(persisted@[i as int]@));
                    }
                },
                None => {
                    removed.push(persisted[i].clone());
                    assert(stored_views(removed@) =~= removed_before.push(persisted@[i as int]@));
                },
            }
            i += 1;
        }
        assert(held.take(persisted.len() as int) =~= held);
        let mut names: Vec<String> = Vec::new();
        let mut j: usize = 0;
        while j < remaining.len()
            invariant
                j <= remaining.len(),
                names.len() == j,
                forall|k: int| 0 <= k < j ==> (#[trigger] names@[k])@ == remaining@[k]@,
            decreases remaining.len() - j,
        {
            names.push(string_of(&remaining[j]));
            j += 1;
        }
        assert(string_views(names@) =~= views(remaining@));
        ReconcilePlan { kept, removed, wanted: names }
    }
}

/// What a plan keeps and what it removes are together what the store held.
/// The names kept are all different, are declared, and are not left; every
/// declared name is kept or left, and nothing else is left.
pub proof fn lemma_reconcile_partition(declared: Set<Seq<char>>, persisted: Seq<StoredTagView>)
    ensures
        names_of(reconcile(declared, persisted).kept).to_multiset().add(
            names_of(reconcile(declared, persisted).removed).to_multiset(),
        ) == names_of(persisted).to_multiset(),
        names_of(reconcile(declared, persisted).kept).no_duplicates(),
        forall|name: Seq<char>|
            declared.contains(name) <==> (names_of(reconcile(declared, persisted).kept).contains(
                name,
            ) || reconcile(declared, persisted).left.contains(name)),
        forall|name: Seq<char>|
            !(names_of(reconcile(declared, persisted).kept).contains(name) && reconcile(
                declared,
                persisted,
            ).left.contains(name)),
    decreases persisted.len(),
{
    broadcast use vstd::seq_lib::group_to_multiset_ensures;

    let plan = reconcile(declared, persisted);
    if persisted.len() == 0 {
        assert(names_of(plan.kept) =~= Seq::<Seq<char>>::empty());
        assert(names_of(plan.removed) =~= Seq::<Seq<char>>::empty());
        assert(names_of(persisted) =~= Seq::<Seq<char>>::empty());
        assert(names_of(plan.kept).to_multiset().add(names_of(plan.removed).to_multiset())
            =~= names_of(persisted).to_multiset());
    } else {
        let front = persisted.drop_last();
        let before = reconcile(declared, front);
        let tag = persisted.last();
        lemma_reconcile_partition(declared, front);
        assert(names_of(persisted) =~= names_of(front).push(tag.name));
        to_multiset_build(names_of(front), tag.name);
        let kept_before = names_of(before.kept);
        if before.left.contains(tag.name) {
            let kept_now = names_of(plan.kept);
            assert(kept_now =~= kept_before.push(tag.name));
            to_multiset_build(kept_before, tag.name);
            assert(!kept_before.contains(tag.name));
            assert forall|name: Seq<char>| kept_now.contains(name) <==> (kept_before.contains(
                name,
            ) || name == tag.name) by {
                if kept_now.contains(name) {
                    let k = choose|k: int| 0 <= k < kept_now.len() && kept_now[k] == name;
                    if k < kept_before.len() {
                        assert(kept_before[k] == name);
                    }
                }
                if kept_before.contains(name) {
                    let k = choose|k: int| 0 <= k < kept_before.len() && kept_before[k] == name;
                    assert(kept_now[k] == name);
                }
                assert(kept_now[kept_before.len() as int] == tag.name);
            }
            assert forall|x: int, y: int|
                0 <= x < kept_now.len() && 0 <= y < kept_now.len() && x != y implies kept_now[x]
                != kept_now[y] by {
                if x < kept_before.len() && y < kept_before.len() {
                    assert(kept_before[x] != kept_before[y]);
                } else if x < kept_before.len() {
                    assert(kept_before.contains(kept_before[x]));
                } else {
                    assert(kept_before.contains(kept_before[y]));
                }
            }
        } else {
            assert(names_of(plan.removed) =~= names_of(before.removed).push(tag.name));
            to_multiset_build(names_of(before.removed), tag.name);
        }
        assert(names_of(plan.kept).to_multiset().add(names_of(plan.removed).to_multiset())
            =~= names_of(persisted).to_multiset());
    }
}

/// After reconciliation the store associates the note with exactly the set
/// of tag names that it declares, whatever the store held before and however
/// often a name is declared: with each declared name once, and with no
/// other. `added` are the names that the plan wants an association for.
pub proof fn lemma_reconcile_associations(
    declared: Seq<Seq<char>>,
    persisted: Seq<StoredTagView>,
    added: Seq<Seq<char>>,
)
    requires
        added.no_duplicates(),
        added.to_set() == reconcile(declared.to_set(), persisted).left,
    ensures
        forall|name: Seq<char>|
            associations_after(
                persisted,
                reconcile(declared.to_set(), persisted).removed,
                added,
            ).count(name) == (if declared.contains(name) {
                1nat
            } else {
                0nat
            }),
        associations_after(
            persisted,
            reconcile(declared.to_set(), persisted).removed,
            added,
        ).dom() == declared.to_set(),
{
    let plan = reconcile(declared.to_set(), persisted);
    lemma_reconcile_partition(declared.to_set(), persisted);
    let kept = names_of(plan.kept);
    let after = associations_after(persisted, plan.removed, added);
    assert(names_of(persisted).to_multiset().sub(names_of(plan.removed).to_multiset())
        =~= kept.to_multiset());
    kept.lemma_multiset_has_no_duplicates();
    added.lemma_multiset_has_no_duplicates();
    assert forall|name: Seq<char>| after.count(name) == (if declared.contains(name) {
        1nat
    } else {
        0nat
    }) by {
        to_multiset_contains(kept, name);
        to_multiset_contains(added, name);
        assert(added.contains(name) <==> plan.left.contains(name));
        assert(declared.contains(name) <==> declared.to_set().contains(name));
    }
    assert(after.dom() =~= declared.to_set());
}

} // verus!
