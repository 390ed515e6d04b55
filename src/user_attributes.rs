//! Names of the attributes that the compiler gives a meaning to.
use vstd::prelude::*;

use crate::diff::same_text;

verus! {

pub const ASIO_LOW_PRI: &'static str = "__AsioLowPri";

pub const CONST: &'static str = "__Const";

pub const DEPRECATED: &'static str = "__Deprecated";

pub const DYNAMICALLY_CALLABLE: &'static str = "__DynamicallyCallable";

pub const DYNAMICALLY_CONSTRUCTIBLE: &'static str = "__DynamicallyConstructible";

pub const DYNAMICALLY_REFERENCED: &'static str = "__DynamicallyReferenced";

pub const ENUM_CLASS: &'static str = "__EnumClass";

pub const IS_FOLDABLE: &'static str = "__IsFoldable";

pub const MEMOIZE: &'static str = "__Memoize";

pub const MEMOIZE_LSB: &'static str = "__MemoizeLSB";

pub const METH_CALLER: &'static str = "__MethCaller";

pub const NATIVE: &'static str = "__Native";

pub const PROVENANCE_SKIP_FRAME: &'static str = "__ProvenanceSkipFrame";

pub const SEALED: &'static str = "__Sealed";

/// The name marks a memoized function: `__Memoize` or `__MemoizeLSB`.
pub open spec fn memoized(name: Seq<char>) -> bool {
    name == MEMOIZE@ || name == MEMOIZE_LSB@
}

/// Whether `name` marks a memoized function.
pub fn is_memoized(name: &str) -> (r: bool)
    ensures
        r == memoized(name@),
{
    same_text(name, MEMOIZE) || same_text(name, MEMOIZE_LSB)
}

/// Whether `name` marks a function implemented natively.
pub fn is_native(name: &str) -> (r: bool)
    ensures
        r == (name@ == NATIVE@),
{
    same_text(name, NATIVE)
}

} // verus!
