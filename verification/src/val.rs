//! The interpreter's values: a tagged union of a graph node reference, a
//! double-precision number (carried as bits), a boolean, and a string.
use vstd::prelude::*;

use crate::NodeId;
use crate::numeric::dbl_to_string;
use crate::numeric::dbl_trunc;
use crate::numeric::decimal_of;
use crate::numeric::trunc_of;
use crate::strings::concat2;

verus! {

/// A value of the description language.
#[derive(Debug)]
pub enum Val {
    Node(NodeId),
    Number(u64),
    Bool(bool),
    Str(String),
}

/// The mathematical content of a value.
pub enum GVal {
    Node(NodeId),
    Number(u64),
    Bool(bool),
    Str(Seq<char>),
}

impl View for Val {
    type V = GVal;

    open spec fn view(&self) -> GVal {
        match self {
            Val::Node(n) => GVal::Node(*n),
            Val::Number(b) => GVal::Number(*b),
            Val::Bool(b) => GVal::Bool(*b),
            Val::Str(s) => GVal::Str(s@),
        }
    }
}

impl Clone for Val {
    /// A clone carries the same content.
    fn clone(&self) -> (r: Val)
        ensures
            r@ == self@,
    {
        match self {
            Val::Node(n) => Val::Node(*n),
            Val::Number(b) => Val::Number(*b),
            Val::Bool(b) => Val::Bool(*b),
            Val::Str(s) => Val::Str(s.clone()),
        }
    }
}

/// A short description of a value's tag, for error messages.
pub open spec fn spec_tag(v: GVal) -> Seq<char> {
    match v {
        GVal::Node(_) => "a Node"@,
        GVal::Number(_) => "a Number"@,
        GVal::Bool(_) => "a Boolean"@,
        GVal::Str(_) => "a String"@,
    }
}

/// The message reported when a value has the wrong tag.
pub open spec fn mismatch_msg(expected: Seq<char>, found: GVal) -> Seq<char> {
    "Type mismatch: expected "@ + expected + ", found "@ + spec_tag(found)
}

/// The truncation of the double given by `bits` to a machine-sized
/// natural number, clamped at the ends.
pub open spec fn spec_nat_of(bits: u64) -> usize {
    if trunc_of(bits) > usize::MAX {
        usize::MAX
    } else {
        trunc_of(bits) as usize
    }
}

/// The textual rendering of the double given by `bits`: its decimal
/// form, with `.0` appended when it reads as a bare integer.
pub open spec fn spec_number_string(bits: u64) -> Seq<char> {
    if int_shaped(decimal_of(bits)) {
        decimal_of(bits) + seq!['.', '0']
    } else {
        decimal_of(bits)
    }
}

/// Whether a rendering is a bare integer: nonempty, a possible leading
/// minus sign, digits elsewhere.
pub open spec fn int_shaped(s: Seq<char>) -> bool {
    s.len() > 0 && forall|i: int|
        0 <= i < s.len() ==> (48 <= (#[trigger] s[i]) as u32 <= 57 || (i == 0 && s[i] == '-'))
}

impl Val {
    fn mismatch(&self, expected: &str) -> (r: String)
        ensures
            r@ == mismatch_msg(expected@, self@),
    {
        let tag: &'static str = match self {
            Val::Node(_) => "a Node",
            Val::Number(_) => "a Number",
            Val::Bool(_) => "a Boolean",
            Val::Str(_) => "a String",
        };
        let mut r = concat2("Type mismatch: expected ", expected);
        r.append(", found ");
        r.append(tag);
        r
    }

    /// The node this value references; an error for any other tag.
    pub fn to_node(&self) -> (r: Result<NodeId, String>)
        ensures
            match r {
                Ok(id) => self@ == GVal::Node(id),
                Err(e) => !(self@ is Node) && e@ == mismatch_msg("a Node"@, self@),
            },
    {
        match self {
            Val::Node(n) => Ok(*n),
            other => Err(other.mismatch("a Node")),
        }
    }

    /// The number this value holds, truncated toward zero to a count or
    /// index; an error for any other tag.
    pub fn to_nat(&self) -> (r: Result<usize, String>)
        ensures
            match r {
                Ok(n) => self@ matches GVal::Number(b) && n == spec_nat_of(b),
                Err(e) => !(self@ is Number) && e@ == mismatch_msg("a Number"@, self@),
            },
    {
        match self {
            Val::Number(b) => {
                let t = dbl_trunc(*b);
                if t > usize::MAX as u64 {
                    Ok(usize::MAX)
                } else {
                    Ok(t as usize)
                }
            },
            other => Err(other.mismatch("a Number")),
        }
    }

    /// The bits of the number this value holds; an error for any other tag.
    pub fn to_float(&self) -> (r: Result<u64, String>)
        ensures
            match r {
                Ok(b) => self@ == GVal::Number(b),
                Err(e) => !(self@ is Number) && e@ == mismatch_msg("a Number"@, self@),
            },
    {
        match self {
            Val::Number(b) => Ok(*b),
            other => Err(other.mismatch("a Number")),
        }
    }

    /// The text of a string value, or the rendering of a number; an
    /// error for any other tag.
    pub fn to_string(&self) -> (r: Result<String, String>)
        ensures
            match r {
                Ok(s) => match self@ {
                    GVal::Str(t) => s@ == t,
                    GVal::Number(b) => s@ == spec_number_string(b),
                    _ => false,
                },
                Err(e) => !(self@ is Str) && !(self@ is Number) && e@ == mismatch_msg(
                    "a String"@,
                    self@,
                ),
            },
    {
        match self {
            Val::Str(s) => Ok(s.clone()),
            Val::Number(b) => {
                let raw = dbl_to_string(*b);
                let n = raw.as_str().unicode_len();
                let mut shaped = n > 0;
                let mut i: usize = 0;
                while i < n
                    invariant
                        0 <= i <= n,
                        n == raw@.len(),
                        shaped == (n > 0 && forall|j: int|
                            0 <= j < i ==> (48 <= (#[trigger] raw@[j]) as u32 <= 57 || (j == 0
                                && raw@[j] == '-'))),
                    decreases n - i,
                {
                    let c = raw.as_str().get_char(i);
                    let u = c as u32;
                    if !(48 <= u && u <= 57) && !(i == 0 && c == '-') {
                        shaped = false;
                    }
                    i += 1;
                }
                if shaped {
                    let r = concat2(raw.as_str(), ".0");
                    proof {
                        reveal_strlit(".0");
                        assert(r@ =~= decimal_of(*b) + seq!['.', '0']);
                    }
                    Ok(r)
                } else {
                    Ok(raw)
                }
            },
            other => Err(other.mismatch("a String")),
        }
    }

    /// The boolean this value holds; an error for any other tag.
    pub fn to_bool(&self) -> (r: Result<bool, String>)
        ensures
            match r {
                Ok(b) => self@ == GVal::Bool(b),
                Err(e) => !(self@ is Bool) && e@ == mismatch_msg("a Boolean"@, self@),
            },
    {
        match self {
            Val::Bool(b) => Ok(*b),
            other => Err(other.mismatch("a Boolean")),
        }
    }
}

} // verus!
