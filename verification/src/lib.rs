//! Type-tagged 128-bit unique identifiers.
//!
//! An [`ID<T>`] wraps a 128-bit payload (a version-4 UUID when freshly
//! generated) and carries a tag type `T` that exists only at compile time:
//! `ID<Foo>` and `ID<Bar>` share one runtime representation but are distinct,
//! non-interchangeable types. Identifiers have value semantics: they are
//! copied, compared, ordered and hashed purely on the payload bytes, and they
//! convert to and from the canonical hyphenated lowercase text form.

pub mod id;
pub mod order;
pub mod text;

pub use id::ID;
