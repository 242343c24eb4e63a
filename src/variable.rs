use vstd::prelude::*;
use crate::text::{decimal, push_decimal};

verus! {

/// A wire of a circuit: the wire fixed to the constant one, or a public or
/// private wire by its index.
#[derive(Debug, Clone, Copy, PartialEq, Eq, Structural, Hash)]
pub enum Variable {
    One,
    Public(usize),
    Private(usize),
}

/// The key of variable `v` in a coefficient map: `One` is `0`, public wire
/// `i` is `2i + 1` and private wire `i` is `2i + 2`.
pub open spec fn id_of(v: Variable) -> u128 {
    match v {
        Variable::One => 0,
        Variable::Public(i) => (2 * i + 1) as u128,
        Variable::Private(i) => (2 * i + 2) as u128,
    }
}

/// The variable whose key is `k`.
pub open spec fn var_of(k: u128) -> Variable {
    if k == 0 {
        Variable::One
    } else if k % 2 == 1 {
        Variable::Public(((k - 1) / 2) as usize)
    } else {
        Variable::Private(((k - 2) / 2) as usize)
    }
}

/// How variable `v` is written: `~one`, `~out_i` for public wire `i`, `_i`
/// for private wire `i`.
pub open spec fn var_text(v: Variable) -> Seq<char> {
    match v {
        Variable::One => seq!['~', 'o', 'n', 'e'],
        Variable::Public(i) => seq!['~', 'o', 'u', 't', '_'] + decimal(i as nat),
        Variable::Private(i) => seq!['_'] + decimal(i as nat),
    }
}

/// `k` is the key of some variable.
pub open spec fn is_id(k: u128) -> bool {
    k <= 2 * (usize::MAX as int) + 2
}

/// Every key of a variable decodes back to it.
pub proof fn lemma_id_round_trip(k: u128)
    requires
        is_id(k),
    ensures
        id_of(var_of(k)) == k,
{
}

/// Distinct variables have distinct keys.
pub proof fn lemma_id_of_injective(v: Variable, w: Variable)
    ensures
        id_of(v) == id_of(w) <==> v == w,
        var_of(id_of(v)) == v,
        is_id(id_of(v)),
{
}

impl Variable {
    /// The variable whose key is `k`.
    pub fn from_id(k: u128) -> (r: Variable)
        requires
            is_id(k),
        ensures
            r == var_of(k),
            id_of(r) == k,
    {
        if k == 0 {
            Variable::One
        } else if k % 2 == 1 {
            Variable::Public(((k - 1) / 2) as usize)
        } else {
            Variable::Private(((k - 2) / 2) as usize)
        }
    }

    /// Appends how this variable is written (see `var_text`) to `out`.
    pub fn render_into(&self, out: &mut Vec<char>)
        ensures
            final(out)@ == old(out)@ + var_text(*self),
    {
        match self {
            Variable::One => {
                out.push('~');
                out.push('o');
                out.push('n');
                out.push('e');
            },
            Variable::Public(i) => {
                out.push('~');
                out.push('o');
                out.push('u');
                out.push('t');
                out.push('_');
                push_decimal(out, *i as u64);
            },
            Variable::Private(i) => {
                out.push('_');
                push_decimal(out, *i as u64);
            },
        }
        proof {
            assert(final(out)@ =~= old(out)@ + var_text(*self));
        }
    }

    /// The key of this variable in a coefficient map.
    pub fn id(&self) -> (r: u128)
        ensures
            r == id_of(*self),
    {
        match self {
            Variable::One => 0,
            Variable::Public(i) => 2 * (*i as u128) + 1,
            Variable::Private(i) => 2 * (*i as u128) + 2,
        }
    }
}

} // verus!
