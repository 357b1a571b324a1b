//! The error of the checkpoint pipeline.

use vstd::prelude::*;
use vstd::string::StringExecFns;

use crate::text::decimal;
use crate::text::join2;
use crate::text::push_decimal;

verus! {

/// What can go wrong between a configuration and a sealed graph.
#[derive(Debug)]
pub enum EvokeError {
    /// The configuration, a tensor key or the set of tensors is not acceptable.
    Config(String),
    /// A tensor does not have the shape that the configuration asks for.
    ShapeMismatch { key: String, expected: Vec<usize>, got: Vec<usize> },
    /// A shard could not be read, or a tensor does not fit the arena.
    Shard { shard: String, msg: String },
    /// The write-once discipline of the arena was violated.
    Seal(String),
    /// A worker or the numerical backend failed.
    Backend(String),
    /// An input or output operation failed.
    Io(String),
}

/// An [`EvokeError`] as a mathematical value.
pub ghost enum EvokeFault {
    Config(Seq<char>),
    ShapeMismatch { key: Seq<char>, expected: Seq<usize>, got: Seq<usize> },
    Shard { shard: Seq<char>, msg: Seq<char> },
    Seal(Seq<char>),
    Backend(Seq<char>),
    Io(Seq<char>),
}

impl View for EvokeError {
    type V = EvokeFault;

    open spec fn view(&self) -> EvokeFault {
        match self {
            EvokeError::Config(m) => EvokeFault::Config(m@),
            EvokeError::ShapeMismatch { key, expected, got } => EvokeFault::ShapeMismatch {
                key: key@,
                expected: expected@,
                got: got@,
            },
            EvokeError::Shard { shard, msg } => EvokeFault::Shard { shard: shard@, msg: msg@ },
            EvokeError::Seal(m) => EvokeFault::Seal(m@),
            EvokeError::Backend(m) => EvokeFault::Backend(m@),
            EvokeError::Io(m) => EvokeFault::Io(m@),
        }
    }
}

/// The entries of a shape, separated by a comma and a blank.
pub open spec fn shape_entries(shape: Seq<usize>) -> Seq<char>
    decreases shape.len(),
{
    if shape.len() == 0 {
        Seq::empty()
    } else if shape.len() == 1 {
        decimal(shape[0] as nat)
    } else {
        shape_entries(shape.drop_last()) + ", "@ + decimal(shape.last() as nat)
    }
}

/// A shape as it is shown in messages: its entries in square brackets.
pub open spec fn shape_text(shape: Seq<usize>) -> Seq<char> {
    "["@ + shape_entries(shape) + "]"@
}

/// Appends a shape as it is shown in messages.
fn push_shape(out: &mut String, shape: &Vec<usize>)
    ensures
        final(out)@ == old(out)@ + shape_text(shape@),
{
    out.append("[");
    let ghost start = out@;
    let mut i: usize = 0;
    while i < shape.len()
        invariant
            i <= shape@.len(),
            out@ == start + shape_entries(shape@.take(i as int)),
        decreases shape@.len() - i,
    {
        proof {
            assert(shape@.take(i + 1).drop_last() =~= shape@.take(i as int));
        }
        if i > 0 {
            out.append(", ");
        }
        push_decimal(out, shape[i] as u128);
        i += 1;
        proof {
            assert(out@ =~= start + shape_entries(shape@.take(i as int)));
        }
    }
    proof {
        assert(shape@.take(i as int) =~= shape@);
    }
    out.append("]");
    proof {
        assert(out@ =~= old(out)@ + shape_text(shape@));
    }
}

impl EvokeFault {
    /// The message that describes the error.
    pub open spec fn message(self) -> Seq<char> {
        match self {
            EvokeFault::Config(m) => "config error: "@ + m,
            EvokeFault::ShapeMismatch { key, expected, got } => "shape mismatch for "@ + key
                + ": expected "@ + shape_text(expected) + ", got "@ + shape_text(got),
            EvokeFault::Shard { shard, msg } => "shard error "@ + shard + ": "@ + msg,
            EvokeFault::Seal(m) => "seal violation: "@ + m,
            EvokeFault::Backend(m) => "backend error: "@ + m,
            EvokeFault::Io(m) => "io error: "@ + m,
        }
    }
}

impl EvokeError {
    /// The message that describes the error.
    pub fn message(&self) -> (text: String)
        ensures
            text@ == self@.message(),
    {
        match self {
            EvokeError::Config(m) => join2("config error: ", m.as_str()),
            EvokeError::ShapeMismatch { key, expected, got } => {
                let mut out: String = join2("shape mismatch for ", key.as_str());
                out.append(": expected ");
                push_shape(&mut out, expected);
                out.append(", got ");
                push_shape(&mut out, got);
                out
            },
            EvokeError::Shard { shard, msg } => {
                let mut out: String = join2("shard error ", shard.as_str());
                out.append(": ");
                out.append(msg.as_str());
                out
            },
            EvokeError::Seal(m) => join2("seal violation: ", m.as_str()),
            EvokeError::Backend(m) => join2("backend error: ", m.as_str()),
            EvokeError::Io(m) => join2("io error: ", m.as_str()),
        }
    }
}

} // verus!
