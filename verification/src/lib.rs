//! A data-serialization and schema-evolution library.
//!
//! Values of application data are carried as a tree ([`value::Value`]);
//! composable, declarative codecs ([`codec::Codec`]) describe how a tree is
//! encoded to and decoded from its serialized shape, and rewrite rules
//! ([`rules::Rule`]) migrate both data trees and type descriptions
//! ([`types::Type`]) between schema versions ([`schema::Schema`]).

pub mod codec;
pub mod context;
pub mod dynamic;
pub mod either_codec;
pub mod eval;
pub mod laws;
pub mod ops;
pub mod result;
pub mod rules;
pub mod schema;
pub mod types;
pub mod tyval;
pub mod value;
