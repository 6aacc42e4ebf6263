//! A Zettelkasten engine: notes on disk, a link graph over them, and the
//! rules that keep the graph in step with the files and with the tag store.

pub mod builder;
pub mod error;
pub mod frontmatter;
pub mod graph;
pub mod id;
pub mod kasten;
pub mod link;
pub mod loader;
pub mod metadata;
pub mod model;
pub mod reconcile;
pub mod resolver;
pub mod tag;
pub mod text;
pub mod watch;
pub mod workspace;
pub mod zettel;

pub use crate::builder::{Built, NewZettel, ZettelBuilder};
pub use crate::error::{HeaderFault, IdFault, ZkError, ZkResult};
pub use crate::frontmatter::{FrontMatter, HeaderLines, DATE_FORMAT};
pub use crate::id::ZettelId;
pub use crate::kasten::{Kasten, ZkGraph};
pub use crate::link::Link;
pub use crate::loader::{Draft, LoadAction, LoadEvent, LoadState, StorePlan, StoredZettel};
pub use crate::metadata::Metadata;
pub use crate::reconcile::ReconcilePlan;
pub use crate::tag::{StoredTag, Tag};
pub use crate::watch::{
    ChangeEvent, ChangeKind, EventClass, WatchAction, WatchDecision, WatchSupervisor,
};
pub use crate::zettel::Zettel;
