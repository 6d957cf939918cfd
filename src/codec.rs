//! The stored form of a command: its argument vector as bincode writes a `Vec<Vec<u8>>`
//! (an 8-byte little-endian count, then each argument as an 8-byte little-endian length
//! followed by its bytes).

use crate::records::Command;
use crate::store::args_view;
use vstd::prelude::*;

verus! {

#[verifier::external_type_specification]
#[verifier::external_body]
pub struct ExBincodeErrorKind(bincode::ErrorKind);

/// `n` as eight little-endian bytes.
pub open spec fn le_u64(n: nat) -> Seq<u8> {
    let x = n as u64;
    seq![
        x as u8,
        (x >> 8u64) as u8,
        (x >> 16u64) as u8,
        (x >> 24u64) as u8,
        (x >> 32u64) as u8,
        (x >> 40u64) as u8,
        (x >> 48u64) as u8,
        (x >> 56u64) as u8,
    ]
}

/// The bytes of the arguments `args`, each prefixed with its length.
pub open spec fn args_body(args: Seq<Seq<u8>>) -> Seq<u8>
    decreases args.len(),
{
    if args.len() == 0 {
        Seq::empty()
    } else {
        args_body(args.drop_last()) + le_u64(args.last().len()) + args.last()
    }
}

/// The stored form of the argument vector `args`.
pub open spec fn command_bytes(args: Seq<Seq<u8>>) -> Seq<u8> {
    le_u64(args.len()) + args_body(args)
}

/// Whether `x` is a prefix of `y`.
pub open spec fn is_prefix(x: Seq<u8>, y: Seq<u8>) -> bool {
    x.len() <= y.len() && forall|k: int| 0 <= k < x.len() ==> x[k] == y[k]
}

/// Whether every argument of `args`, and their count, fits an eight-byte length.
pub open spec fn lengths_fit(args: Seq<Seq<u8>>) -> bool {
    args.len() <= u64::MAX && forall|i: int| 0 <= i < args.len() ==> #[trigger] args[i].len() <= u64::MAX
}

/// Two lengths with the same eight bytes are the same length.
proof fn lemma_le_u64_injective(n: nat, m: nat)
    requires
        n <= u64::MAX,
        m <= u64::MAX,
        le_u64(n) == le_u64(m),
    ensures
        n == m,
{
    let x = n as u64;
    let y = m as u64;
    let a = le_u64(n);
    let b = le_u64(m);
    assert(a[0] == b[0] && a[1] == b[1] && a[2] == b[2] && a[3] == b[3]);
    assert(a[4] == b[4] && a[5] == b[5] && a[6] == b[6] && a[7] == b[7]);
    assert(x == y) by (bit_vector)
        requires
            x as u8 == y as u8,
            (x >> 8u64) as u8 == (y >> 8u64) as u8,
            (x >> 16u64) as u8 == (y >> 16u64) as u8,
            (x >> 24u64) as u8 == (y >> 24u64) as u8,
            (x >> 32u64) as u8 == (y >> 32u64) as u8,
            (x >> 40u64) as u8 == (y >> 40u64) as u8,
            (x >> 48u64) as u8 == (y >> 48u64) as u8,
            (x >> 56u64) as u8 == (y >> 56u64) as u8,
    ;
}

/// The body of a non-empty argument vector begins with its first argument.
proof fn lemma_body_front(a: Seq<Seq<u8>>)
    requires
        a.len() > 0,
    ensures
        args_body(a) == le_u64(a[0].len()) + a[0] + args_body(a.subrange(1, a.len() as int)),
    decreases a.len(),
{
    let n = a.len() as int;
    if n == 1 {
        assert(a.drop_last() =~= Seq::<Seq<u8>>::empty());
        assert(a.subrange(1, 1) =~= Seq::<Seq<u8>>::empty());
        assert(args_body(a) =~= le_u64(a[0].len()) + a[0] + args_body(a.subrange(1, n)));
    } else {
        let d = a.drop_last();
        lemma_body_front(d);
        assert(d[0] == a[0]);
        assert(a.subrange(1, n).drop_last() =~= d.subrange(1, n - 1));
        assert(a.subrange(1, n).last() == a.last());
        assert(args_body(a) =~= le_u64(a[0].len()) + a[0] + args_body(a.subrange(1, n)));
    }
}

/// Where the body of `a` is a prefix of the body of `b`, an argument vector of the same
/// count, the two are the same.
proof fn lemma_body_prefix(a: Seq<Seq<u8>>, b: Seq<Seq<u8>>)
    requires
        a.len() == b.len(),
        lengths_fit(a),
        lengths_fit(b),
        is_prefix(args_body(a), args_body(b)),
    ensures
        a == b,
    decreases a.len(),
{
    if a.len() == 0 {
        assert(a =~= b);
    } else {
        lemma_body_front(a);
        lemma_body_front(b);
        let x = args_body(a);
        let y = args_body(b);
        let la = a[0].len();
        let lb = b[0].len();
        let ra = a.subrange(1, a.len() as int);
        let rb = b.subrange(1, b.len() as int);
        assert(le_u64(la) =~= le_u64(lb)) by {
            assert forall|k: int| 0 <= k < 8 implies le_u64(la)[k] == le_u64(lb)[k] by {
                assert(x[k] == y[k]);
            }
        }
        lemma_le_u64_injective(la, lb);
        assert(a[0] =~= b[0]) by {
            assert forall|k: int| 0 <= k < la implies a[0][k] == b[0][k] by {
                assert(x[8 + k] == y[8 + k]);
            }
        }
        assert(is_prefix(args_body(ra), args_body(rb))) by {
            assert forall|k: int| 0 <= k < args_body(ra).len() implies args_body(ra)[k] == args_body(rb)[k] by {
                assert(x[8 + la + k] == y[8 + la + k]);
            }
        }
        assert(lengths_fit(ra)) by {
            assert forall|i: int| 0 <= i < ra.len() implies #[trigger] ra[i].len() <= u64::MAX by {
                assert(ra[i] == a[i + 1]);
            }
        }
        assert(lengths_fit(rb)) by {
            assert forall|i: int| 0 <= i < rb.len() implies #[trigger] rb[i].len() <= u64::MAX by {
                assert(rb[i] == b[i + 1]);
            }
        }
        lemma_body_prefix(ra, rb);
        assert forall|i: int| 0 <= i < a.len() implies a[i] == b[i] by {
            if i > 0 {
                assert(a[i] == ra[i - 1]);
                assert(b[i] == rb[i - 1]);
            }
        }
        assert(a =~= b);
    }
}

/// The stored form of a command determines it: where the stored form of `a` is a prefix of
/// the stored form of `b`, which is what decoding the stored form of `b` into `a` gives, the
/// two are the same. So reading back a stored command gives the command that was stored.
pub proof fn lemma_command_round_trip(a: Seq<Seq<u8>>, b: Seq<Seq<u8>>)
    requires
        lengths_fit(a),
        lengths_fit(b),
        command_bytes(a).len() <= command_bytes(b).len(),
        command_bytes(b).subrange(0, command_bytes(a).len() as int) == command_bytes(a),
    ensures
        a == b,
{
    let x = command_bytes(a);
    let y = command_bytes(b);
    assert forall|k: int| 0 <= k < x.len() implies x[k] == y[k] by {
        assert(y.subrange(0, x.len() as int)[k] == y[k]);
    }
    assert(le_u64(a.len()) =~= le_u64(b.len())) by {
        assert forall|k: int| 0 <= k < 8 implies le_u64(a.len())[k] == le_u64(b.len())[k] by {
            assert(x[k] == y[k]);
        }
    }
    lemma_le_u64_injective(a.len(), b.len());
    assert(is_prefix(args_body(a), args_body(b))) by {
        assert forall|k: int| 0 <= k < args_body(a).len() implies args_body(a)[k] == args_body(b)[k] by {
            assert(x[8 + k] == y[8 + k]);
        }
    }
    lemma_body_prefix(a, b);
}

/// Relies on `bincode::serialize` (default fixed-width little-endian options, no size limit)
/// applied to a `Vec<Vec<u8>>`: the count of arguments, then each argument's length and
/// bytes. Sequences of known length written to memory cannot fail.
#[verifier::external_body]
fn serialize_args(args: &Vec<Vec<u8>>) -> (r: Result<Vec<u8>, Box<bincode::ErrorKind>>)
    ensures
        r is Ok,
        r matches Ok(b) ==> b@ == command_bytes(args_view(args@)),
{
    bincode::serialize(args)
}

/// Relies on `bincode::deserialize` into a `Vec<Vec<u8>>`, which reads the stored form from
/// the front of `bytes` and ignores what follows it; a stored form is always read. The
/// lengths of what it returns fit eight bytes, as those of any vector in memory do.
#[verifier::external_body]
fn deserialize_args(bytes: &[u8]) -> (r: Result<Vec<Vec<u8>>, Box<bincode::ErrorKind>>)
    ensures
        (exists|a: Seq<Seq<u8>>| bytes@ == command_bytes(a)) ==> r is Ok,
        r matches Ok(a) ==> lengths_fit(args_view(a@)),
        r matches Ok(a) ==> command_bytes(args_view(a@)).len() <= bytes@.len() && bytes@.subrange(
            0,
            command_bytes(args_view(a@)).len() as int,
        ) == command_bytes(args_view(a@)),
{
    bincode::deserialize(bytes)
}

impl Command {
    /// The stored form of this command; encoding always succeeds.
    pub fn encode(&self) -> (r: Result<Vec<u8>, Box<bincode::ErrorKind>>)
        ensures
            r is Ok,
            r matches Ok(b) ==> b@ == command_bytes(args_view(self.0@)),
    {
        serialize_args(&self.0)
    }

    /// Reads a command back from its stored form at the front of `bytes`; the stored form of
    /// a command is always read back as that command.
    pub fn decode(bytes: &[u8]) -> (r: Result<Command, Box<bincode::ErrorKind>>)
        ensures
            (exists|a: Seq<Seq<u8>>| bytes@ == command_bytes(a)) ==> r is Ok,
            forall|a: Seq<Seq<u8>>|
                #![trigger command_bytes(a)]
                bytes@ == command_bytes(a) && lengths_fit(a) ==> (r matches Ok(c) && args_view(c.0@)
                    == a),
            r matches Ok(c) ==> command_bytes(args_view(c.0@)).len() <= bytes@.len() && bytes@.subrange(
                0,
                command_bytes(args_view(c.0@)).len() as int,
            ) == command_bytes(args_view(c.0@)),
    {
        let r = deserialize_args(bytes);
        proof {
            if r is Ok {
                let got = args_view(r->Ok_0@);
                assert forall|a: Seq<Seq<u8>>|
                    #![trigger command_bytes(a)]
                    bytes@ == command_bytes(a) && lengths_fit(a) implies got == a by {
                    lemma_command_round_trip(got, a);
                }
            }
        }
        match r {
            Ok(a) => Ok(Command(a)),
            Err(e) => Err(e),
        }
    }
}

} // verus!
