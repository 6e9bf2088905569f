//! Conditionals that can be written shorter without a change of meaning.
pub mod absorption;
pub mod elif_collapse;
pub mod else_if_elif;
pub mod empty_else;
pub mod expr_constants;
pub mod idempotent_self;
pub mod invert_arch;
pub mod inverted_if_else;
pub mod line_continuation;
pub mod nested_and;
pub mod string_set;

pub use absorption::AbsorptionInExpr;
pub use elif_collapse::CollapseElifIntoElse;
pub use else_if_elif::CollapseElseIfIntoElif;
pub use empty_else::EmptyElseDrop;
pub use expr_constants::{ConstantTautologyInExpr, DoubleNegationInExpr};
pub use idempotent_self::{IdempotentInExpr, SelfComparisonInExpr};
pub use invert_arch::InvertEmptyIfArch;
pub use inverted_if_else::InvertedIfElse;
pub use line_continuation::LineContinuationInCondition;
pub use nested_and::NestedAndCollapse;
pub use string_set::StringSetRedundancy;
