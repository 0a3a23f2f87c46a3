//! A YAML value tree whose nodes carry their source spans.
//!
//! Text is composed into documents by `libyaml-safer` ([`load`]), each document is built into a
//! [`Value`] tree ([`builder`]) whose scalars are typed as YAML 1.2 does, and the tree can be
//! queried, merged ([`merge`]) and compared ([`order`], [`equivalence`]). The data model of
//! serialization is served by [`ser`], which builds values, and [`de`], which decides what a
//! value hands on for each kind of datum it is asked for.

pub mod access;
pub mod builder;
pub mod compare;
pub mod convert;
pub mod de;
pub mod document;
pub mod entry;
pub mod equivalence;
pub mod error;
pub mod fmt;
pub mod laws;
pub mod load;
pub mod mapping;
pub mod merge;
pub mod number;
pub mod order;
mod private;
pub mod repr;
pub mod ser;
pub mod spanned;
pub mod tag;
pub mod text;
pub mod value;

pub use builder::Builder;
pub use error::{Error, LimitExceeded, MergeError, ParseError};
pub use mapping::Mapping;
pub use number::Number;
pub use ser::Serializer;
pub use spanned::Spanned;
pub use tag::{Tag, TaggedValue};
pub use value::{Sequence, Value};
