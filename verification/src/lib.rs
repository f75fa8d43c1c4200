//! A parser-combinator engine: small, reusable parsing operations composed
//! into larger ones, operating over token streams of scalar values or bytes
//! through a cursor that is the single point of mutable state in a parse.

pub mod combinators;
pub mod input;
pub mod laws;
pub mod parser;
pub mod primitives;
pub mod repeat;
pub mod sequence;

pub use combinators::And;
pub use combinators::Bind;
pub use combinators::Filter;
pub use combinators::LeftBind;
pub use combinators::Mapped;
pub use combinators::Or;
pub use combinators::Padded;
pub use combinators::RightBind;
pub use input::Input;
pub use input::InputRef;
pub use laws::lemma_alternative_independence;
pub use laws::lemma_end_consumes_nothing;
pub use laws::lemma_literal_round_trip;
pub use parser::ParseError;
pub use parser::ParseResult;
pub use parser::Parser;
pub use primitives::any;
pub use primitives::end;
pub use primitives::exact;
pub use primitives::one_of;
pub use primitives::Any;
pub use primitives::End;
pub use primitives::Exact;
pub use primitives::OneOf;
pub use repeat::AtLeast;
pub use repeat::AtMost;
pub use repeat::Collect;
pub use repeat::Exactly;
pub use repeat::Repeated;
pub use repeat::RepeatedRange;
pub use sequence::Container;
pub use sequence::OrderedSequence;
