//! The wire codec.
//!
//! A request body is framed as
//! `[u16 argCount][u32 argLen_0]...[u32 argLen_{n-1}][arg_0]...[arg_{n-1}]`,
//! all integers big-endian: at most 65_535 arguments, each at most
//! `u32::MAX` bytes. Inputs over those bounds are rejected, never silently
//! truncated or wrapped.
//!
//! The byte layout is stated by spec functions (`req_body`) and decoding by a
//! spec-level parser (`parse_req`); the executable encoder and decoder are
//! proved exact against them, and `lemma_req_round_trip` proves that parsing
//! an encoding yields back the original arguments.

use vstd::prelude::*;

use crate::errors::CodecError;

verus! {

// --- big-endian integers ---

/// The two big-endian bytes of a `u16`.
pub open spec fn be16(n: u16) -> Seq<u8> {
    seq![(n / 256) as u8, (n % 256) as u8]
}

/// The four big-endian bytes of a `u32`.
pub open spec fn be32(n: u32) -> Seq<u8> {
    be16((n / 0x10000) as u16) + be16((n % 0x10000) as u16)
}

/// The eight big-endian bytes of a `u64`.
pub open spec fn be64(n: u64) -> Seq<u8> {
    be32((n / 0x1_0000_0000) as u32) + be32((n % 0x1_0000_0000) as u32)
}

/// The value of two big-endian bytes.
pub open spec fn be16_val(b: Seq<u8>) -> nat
    recommends
        b.len() == 2,
{
    (b[0] * 256 + b[1]) as nat
}

/// The value of four big-endian bytes.
pub open spec fn be32_val(b: Seq<u8>) -> nat
    recommends
        b.len() == 4,
{
    be16_val(b.subrange(0, 2)) * 0x10000 + be16_val(b.subrange(2, 4))
}

/// The value of eight big-endian bytes.
pub open spec fn be64_val(b: Seq<u8>) -> nat
    recommends
        b.len() == 8,
{
    be32_val(b.subrange(0, 4)) * 0x1_0000_0000 + be32_val(b.subrange(4, 8))
}

pub proof fn lemma_be16_round(n: u16)
    ensures
        be16(n).len() == 2,
        be16_val(be16(n)) == n,
{
    assert(n / 256 < 256);
    assert(be16(n)[0] == (n / 256) as u8);
    assert(be16(n)[1] == (n % 256) as u8);
    assert((n / 256) * 256 + n % 256 == n) by (nonlinear_arith);
}

pub proof fn lemma_be32_round(n: u32)
    ensures
        be32(n).len() == 4,
        be32_val(be32(n)) == n,
{
    let hi = (n / 0x10000) as u16;
    let lo = (n % 0x10000) as u16;
    lemma_be16_round(hi);
    lemma_be16_round(lo);
    assert(be32(n).subrange(0, 2) =~= be16(hi));
    assert(be32(n).subrange(2, 4) =~= be16(lo));
    assert((n / 0x10000) * 0x10000 + n % 0x10000 == n) by (nonlinear_arith);
}

pub proof fn lemma_be64_round(n: u64)
    ensures
        be64(n).len() == 8,
        be64_val(be64(n)) == n,
{
    let hi = (n / 0x1_0000_0000) as u32;
    let lo = (n % 0x1_0000_0000) as u32;
    lemma_be32_round(hi);
    lemma_be32_round(lo);
    assert(be64(n).subrange(0, 4) =~= be32(hi));
    assert(be64(n).subrange(4, 8) =~= be32(lo));
    assert(be64_val(be64(n)) == be32_val(be64(n).subrange(0, 4)) * 0x1_0000_0000 + be32_val(
        be64(n).subrange(4, 8),
    ));
    assert((n / 0x1_0000_0000) * 0x1_0000_0000 + n % 0x1_0000_0000 == n) by (nonlinear_arith);
}

/// Appends the two big-endian bytes of `n`.
pub fn push_be16(buf: &mut Vec<u8>, n: u16)
    ensures
        final(buf)@ == old(buf)@ + be16(n),
{
    buf.push((n / 256) as u8);
    buf.push((n % 256) as u8);
    assert(buf@ =~= old(buf)@ + be16(n));
}

/// Appends the four big-endian bytes of `n`.
pub fn push_be32(buf: &mut Vec<u8>, n: u32)
    ensures
        final(buf)@ == old(buf)@ + be32(n),
{
    push_be16(buf, (n / 0x10000) as u16);
    push_be16(buf, (n % 0x10000) as u16);
    assert(buf@ =~= old(buf)@ + be32(n));
}

/// Appends the eight big-endian bytes of `n`.
pub fn push_be64(buf: &mut Vec<u8>, n: u64)
    ensures
        final(buf)@ == old(buf)@ + be64(n),
{
    push_be32(buf, (n / 0x1_0000_0000) as u32);
    push_be32(buf, (n % 0x1_0000_0000) as u32);
    assert(buf@ =~= old(buf)@ + be64(n));
}

/// Reads two big-endian bytes at `off`.
pub fn read_be16(b: &Vec<u8>, off: usize) -> (r: u16)
    requires
        off + 2 <= b@.len(),
    ensures
        r == be16_val(b@.subrange(off as int, off as int + 2)),
{
    let _n = b.len();
    let hi = b[off];
    let lo = b[off + 1];
    let r = (hi as u16) * 256 + (lo as u16);
    proof {
        let s = b@.subrange(off as int, off as int + 2);
        assert(s[0] == hi && s[1] == lo);
    }
    r
}

/// Reads four big-endian bytes at `off`.
pub fn read_be32(b: &Vec<u8>, off: usize) -> (r: u32)
    requires
        off + 4 <= b@.len(),
    ensures
        r == be32_val(b@.subrange(off as int, off as int + 4)),
{
    let _n = b.len();
    let hi = read_be16(b, off);
    let lo = read_be16(b, off + 2);
    let r = (hi as u32) * 0x10000 + (lo as u32);
    proof {
        let s = b@.subrange(off as int, off as int + 4);
        assert(s.subrange(0, 2) =~= b@.subrange(off as int, off as int + 2));
        assert(s.subrange(2, 4) =~= b@.subrange(off as int + 2, off as int + 4));
    }
    r
}

/// Reads eight big-endian bytes at `off`.
pub fn read_be64(b: &Vec<u8>, off: usize) -> (r: u64)
    requires
        off + 8 <= b@.len(),
    ensures
        r == be64_val(b@.subrange(off as int, off as int + 8)),
{
    let _n = b.len();
    let hi = read_be32(b, off);
    let lo = read_be32(b, off + 4);
    let r = (hi as u64) * 0x1_0000_0000 + (lo as u64);
    proof {
        let s = b@.subrange(off as int, off as int + 8);
        assert(s.subrange(0, 4) =~= b@.subrange(off as int, off as int + 4));
        assert(s.subrange(4, 8) =~= b@.subrange(off as int + 4, off as int + 8));
    }
    r
}

// --- request body ---

/// Bounds the wire format puts on one request: the argument count must fit
/// the header's `u16`, each argument's length its `u32`.
pub open spec fn req_args_ok(args: Seq<Seq<u8>>) -> bool {
    &&& args.len() <= 0xFFFF
    &&& forall|i: int| 0 <= i < args.len() ==> (#[trigger] args[i]).len() <= 0xFFFF_FFFF
}

/// The big-endian length fields of the arguments, one `u32` each.
pub open spec fn lens_bytes(args: Seq<Seq<u8>>) -> Seq<u8>
    decreases args.len(),
{
    if args.len() == 0 {
        Seq::empty()
    } else {
        be32(args[0].len() as u32) + lens_bytes(args.drop_first())
    }
}

/// All argument bytes, concatenated in order.
pub open spec fn cat_args(args: Seq<Seq<u8>>) -> Seq<u8>
    decreases args.len(),
{
    if args.len() == 0 {
        Seq::empty()
    } else {
        args[0] + cat_args(args.drop_first())
    }
}

/// The sum of a sequence of lengths.
pub open spec fn sum_lens(lens: Seq<nat>) -> nat
    decreases lens.len(),
{
    if lens.len() == 0 {
        0
    } else {
        lens[0] + sum_lens(lens.drop_first())
    }
}

/// The lengths of the arguments.
pub open spec fn lens_of(args: Seq<Seq<u8>>) -> Seq<nat> {
    Seq::new(args.len(), |i: int| args[i].len())
}

/// One encoded request body: count, length fields, argument bytes.
pub open spec fn req_body(args: Seq<Seq<u8>>) -> Seq<u8> {
    be16(args.len() as u16) + lens_bytes(args) + cat_args(args)
}

pub proof fn lemma_lens_bytes_len(args: Seq<Seq<u8>>)
    ensures
        lens_bytes(args).len() == 4 * args.len(),
    decreases args.len(),
{
    if args.len() > 0 {
        lemma_lens_bytes_len(args.drop_first());
    }
}

pub proof fn lemma_cat_args_len(args: Seq<Seq<u8>>)
    ensures
        cat_args(args).len() == sum_lens(lens_of(args)),
    decreases args.len(),
{
    if args.len() > 0 {
        lemma_cat_args_len(args.drop_first());
        assert(lens_of(args).drop_first() =~= lens_of(args.drop_first()));
    }
}

/// The `i`th length field sits at offset `4 * i` of the length-field block.
pub proof fn lemma_lens_bytes_at(args: Seq<Seq<u8>>, i: int)
    requires
        0 <= i < args.len(),
    ensures
        lens_bytes(args).subrange(4 * i, 4 * i + 4) == be32(args[i].len() as u32),
    decreases i,
{
    lemma_lens_bytes_len(args);
    lemma_lens_bytes_len(args.drop_first());
    if i == 0 {
        assert(lens_bytes(args).subrange(0, 4) =~= be32(args[0].len() as u32));
    } else {
        lemma_lens_bytes_at(args.drop_first(), i - 1);
        assert(lens_bytes(args).subrange(4 * i, 4 * i + 4) =~= lens_bytes(
            args.drop_first(),
        ).subrange(4 * (i - 1), 4 * (i - 1) + 4));
        assert(args.drop_first()[i - 1] == args[i]);
    }
}

/// The byte offset of the `i`th argument inside the concatenated block.
pub open spec fn arg_off(args: Seq<Seq<u8>>, i: int) -> nat {
    sum_lens(lens_of(args).take(i))
}

/// The `i`th argument sits at its offset in the concatenated block.
pub proof fn lemma_cat_args_at(args: Seq<Seq<u8>>, i: int)
    requires
        0 <= i < args.len(),
    ensures
        arg_off(args, i) + args[i].len() <= cat_args(args).len(),
        cat_args(args).subrange(
            arg_off(args, i) as int,
            arg_off(args, i) + args[i].len() as int,
        ) == args[i],
    decreases i,
{
    lemma_cat_args_len(args);
    lemma_cat_args_len(args.drop_first());
    if i == 0 {
        assert(lens_of(args).take(0) =~= Seq::<nat>::empty());
        assert(arg_off(args, 0) == 0);
        lemma_sum_lens_prefix(lens_of(args), 0);
        assert(cat_args(args).subrange(0, args[0].len() as int) =~= args[0]);
    } else {
        lemma_cat_args_at(args.drop_first(), i - 1);
        assert(args.drop_first()[i - 1] == args[i]);
        // arg_off steps by the head's length when dropping the head.
        assert(lens_of(args).take(i).drop_first() =~= lens_of(args.drop_first()).take(i - 1));
        assert(arg_off(args, i) == args[0].len() + arg_off(args.drop_first(), i - 1));
        lemma_sum_lens_prefix(lens_of(args), i);
        let lo = arg_off(args, i) as int;
        let hi = arg_off(args, i) + args[i].len();
        let lo2 = arg_off(args.drop_first(), i - 1) as int;
        assert(cat_args(args).subrange(lo, hi as int) =~= cat_args(args.drop_first()).subrange(
            lo2,
            lo2 + args[i].len(),
        ));
    }
}

/// A prefix sum of lengths never exceeds the whole sum.
pub proof fn lemma_sum_lens_prefix(lens: Seq<nat>, i: int)
    requires
        0 <= i <= lens.len(),
    ensures
        sum_lens(lens.take(i)) + sum_lens(lens.skip(i)) == sum_lens(lens),
    decreases i,
{
    if i == 0 {
        assert(lens.take(0) =~= Seq::<nat>::empty());
        assert(lens.skip(0) =~= lens);
    } else {
        lemma_sum_lens_prefix(lens.drop_first(), i - 1);
        assert(lens.take(i).drop_first() =~= lens.drop_first().take(i - 1));
        assert(lens.skip(i) =~= lens.drop_first().skip(i - 1));
        assert(lens.take(i)[0] == lens[0]);
    }
}

/// A sum of lengths each at most `m` is at most `len * m`.
pub proof fn lemma_sum_lens_bound(lens: Seq<nat>, m: nat)
    requires
        forall|i: int| 0 <= i < lens.len() ==> (#[trigger] lens[i]) <= m,
    ensures
        sum_lens(lens) <= lens.len() * m,
    decreases lens.len(),
{
    if lens.len() == 0 {
    } else {
        assert forall|i: int| 0 <= i < lens.drop_first().len() implies (#[trigger] lens.drop_first()[
            i
        ]) <= m by {
            assert(lens.drop_first()[i] == lens[i + 1]);
        }
        lemma_sum_lens_bound(lens.drop_first(), m);
        assert(lens[0] <= m);
        assert(m + (lens.len() - 1) * m == lens.len() * m) by (nonlinear_arith);
    }
}

/// How long an encoded request body is, and that the length fits well below
/// `u64::MAX` for every argument sequence within the wire format's bounds.
pub proof fn lemma_req_body_len(args: Seq<Seq<u8>>)
    requires
        req_args_ok(args),
    ensures
        req_body(args).len() == 2 + 4 * args.len() + sum_lens(lens_of(args)),
        req_body(args).len() <= 2 + 4 * 0xFFFF + 0xFFFF * 0xFFFF_FFFF,
{
    lemma_lens_bytes_len(args);
    lemma_cat_args_len(args);
    assert forall|i: int| 0 <= i < lens_of(args).len() implies (#[trigger] lens_of(args)[i])
        <= 0xFFFF_FFFF by {
        assert(lens_of(args)[i] == args[i].len());
    }
    lemma_sum_lens_bound(lens_of(args), 0xFFFF_FFFF);
    assert(args.len() * 0xFFFF_FFFF <= 0xFFFF * 0xFFFF_FFFF) by (nonlinear_arith)
        requires args.len() <= 0xFFFF;
}

// --- spec-level parser ---

/// The argument count a request body declares.
pub open spec fn parsed_n(b: Seq<u8>) -> int {
    be16_val(b.subrange(0, 2)) as int
}

/// The argument lengths a request body declares.
pub open spec fn parsed_lens(b: Seq<u8>) -> Seq<nat> {
    Seq::new(parsed_n(b) as nat, |i: int| be32_val(b.subrange(2 + 4 * i, 2 + 4 * i + 4)))
}

/// Parses one request body: `Some(args)` exactly when the bytes are one
/// complete, well-formed encoding with nothing left over.
pub open spec fn parse_req(b: Seq<u8>) -> Option<Seq<Seq<u8>>> {
    if b.len() < 2 {
        None
    } else {
        let n = parsed_n(b);
        if b.len() < 2 + 4 * n {
            None
        } else {
            let lens = parsed_lens(b);
            if b.len() != 2 + 4 * n + sum_lens(lens) {
                None
            } else {
                Some(
                    Seq::new(
                        n as nat,
                        |i: int|
                            b.subrange(
                                2 + 4 * n + sum_lens(lens.take(i)),
                                2 + 4 * n + sum_lens(lens.take(i)) + lens[i],
                            ),
                    ),
                )
            }
        }
    }
}

/// Round trip: parsing an encoded request yields back exactly the arguments
/// that were encoded. Holds for every argument sequence within the wire
/// format's bounds.
pub proof fn lemma_req_round_trip(args: Seq<Seq<u8>>)
    requires
        req_args_ok(args),
    ensures
        parse_req(req_body(args)) == Some(args),
{
    let b = req_body(args);
    let n = args.len() as int;
    lemma_be16_round(args.len() as u16);
    lemma_lens_bytes_len(args);
    lemma_cat_args_len(args);
    assert(b.subrange(0, 2) =~= be16(args.len() as u16));
    assert(be16_val(b.subrange(0, 2)) == n);
    assert(b.len() == 2 + 4 * n + sum_lens(lens_of(args)));

    // The length fields parse back to the argument lengths.
    let lens = parsed_lens(b);
    assert forall|i: int| 0 <= i < n implies lens[i] == args[i].len() by {
        lemma_lens_bytes_at(args, i);
        lemma_be32_round(args[i].len() as u32);
        assert(b.subrange(2 + 4 * i, 2 + 4 * i + 4) =~= lens_bytes(args).subrange(
            4 * i,
            4 * i + 4,
        ));
    }
    assert(lens =~= lens_of(args));
    assert(b.len() == 2 + 4 * n + sum_lens(lens));

    // Each parsed argument is the original one.
    let parsed = parse_req(b).unwrap();
    assert forall|i: int| 0 <= i < n implies parsed[i] == args[i] by {
        lemma_cat_args_at(args, i);
        assert(lens.take(i) =~= lens_of(args).take(i));
        let off = 2 + 4 * n + sum_lens(lens.take(i));
        assert(b.subrange(off, off + lens[i]) =~= cat_args(args).subrange(
            arg_off(args, i) as int,
            arg_off(args, i) + args[i].len() as int,
        ));
    }
    assert(parsed =~= args);
}

// --- executable encoder and decoder ---

/// The views of a sequence of byte vectors.
pub open spec fn views(args: Seq<Vec<u8>>) -> Seq<Seq<u8>> {
    Seq::new(args.len(), |i: int| args[i]@)
}

pub proof fn lemma_lens_bytes_snoc(args: Seq<Seq<u8>>, x: Seq<u8>)
    ensures
        lens_bytes(args.push(x)) == lens_bytes(args) + be32(x.len() as u32),
    decreases args.len(),
{
    let s = args.push(x);
    assert(s.len() == args.len() + 1);
    assert(s[args.len() as int] == x);
    if args.len() == 0 {
        assert(s[0] == x);
        assert(s.drop_first() =~= Seq::<Seq<u8>>::empty());
        assert(lens_bytes(s.drop_first()) == Seq::<u8>::empty());
        assert(lens_bytes(s) == be32(x.len() as u32) + Seq::<u8>::empty());
        assert(lens_bytes(args) == Seq::<u8>::empty());
        assert(be32(x.len() as u32) + Seq::<u8>::empty() =~= Seq::<u8>::empty() + be32(
            x.len() as u32,
        ));
    } else {
        lemma_lens_bytes_snoc(args.drop_first(), x);
        assert(s.drop_first() =~= args.drop_first().push(x));
        assert(s[0] == args[0]);
        assert(lens_bytes(s) == be32(args[0].len() as u32) + (lens_bytes(args.drop_first())
            + be32(x.len() as u32)));
        assert(be32(args[0].len() as u32) + (lens_bytes(args.drop_first()) + be32(
            x.len() as u32,
        )) =~= (be32(args[0].len() as u32) + lens_bytes(args.drop_first())) + be32(
            x.len() as u32,
        ));
    }
}

pub proof fn lemma_cat_args_snoc(args: Seq<Seq<u8>>, x: Seq<u8>)
    ensures
        cat_args(args.push(x)) == cat_args(args) + x,
    decreases args.len(),
{
    let s = args.push(x);
    assert(s[args.len() as int] == x);
    if args.len() == 0 {
        assert(s[0] == x);
        assert(s.drop_first() =~= Seq::<Seq<u8>>::empty());
        assert(cat_args(s.drop_first()) == Seq::<u8>::empty());
        assert(cat_args(s) == x + Seq::<u8>::empty());
        assert(cat_args(args) == Seq::<u8>::empty());
        assert(x + Seq::<u8>::empty() =~= Seq::<u8>::empty() + x);
    } else {
        lemma_cat_args_snoc(args.drop_first(), x);
        assert(s.drop_first() =~= args.drop_first().push(x));
        assert(s[0] == args[0]);
        assert(cat_args(s) == args[0] + (cat_args(args.drop_first()) + x));
        assert(args[0] + (cat_args(args.drop_first()) + x) =~= (args[0] + cat_args(
            args.drop_first(),
        )) + x);
    }
}

/// Four big-endian bytes always read below `2^32`.
pub proof fn lemma_be32_val_bound(b: Seq<u8>)
    ensures
        be32_val(b) < 0x1_0000_0000,
{
    assert(be16_val(b.subrange(0, 2)) < 0x10000);
    assert(be16_val(b.subrange(2, 4)) < 0x10000);
}

pub proof fn lemma_sum_lens_snoc(lens: Seq<nat>, x: nat)
    ensures
        sum_lens(lens.push(x)) == sum_lens(lens) + x,
    decreases lens.len(),
{
    let s = lens.push(x);
    assert(s[lens.len() as int] == x);
    if lens.len() == 0 {
        assert(s[0] == x);
        assert(s.drop_first() =~= Seq::<nat>::empty());
        assert(sum_lens(s.drop_first()) == 0);
    } else {
        lemma_sum_lens_snoc(lens.drop_first(), x);
        assert(s.drop_first() =~= lens.drop_first().push(x));
        assert(s[0] == lens[0]);
    }
}

/// Appends all of `src` to `dst`.
pub fn push_bytes(dst: &mut Vec<u8>, src: &Vec<u8>)
    ensures
        final(dst)@ == old(dst)@ + src@,
{
    let n = src.len();
    let mut i: usize = 0;
    while i < n
        invariant
            i <= n,
            n == src@.len(),
            dst@ == old(dst)@ + src@.take(i as int),
        decreases n - i,
    {
        dst.push(src[i]);
        assert(dst@ =~= old(dst)@ + src@.take(i as int + 1));
        i += 1;
    }
    assert(dst@ =~= old(dst)@ + src@);
}

/// Copies `src[start..end]` into a fresh vector.
pub fn copy_range(src: &Vec<u8>, start: usize, end: usize) -> (r: Vec<u8>)
    requires
        start <= end <= src@.len(),
    ensures
        r@ == src@.subrange(start as int, end as int),
{
    let mut out: Vec<u8> = Vec::new();
    let mut i = start;
    while i < end
        invariant
            start <= i <= end,
            end <= src@.len(),
            out@ == src@.subrange(start as int, i as int),
        decreases end - i,
    {
        out.push(src[i]);
        assert(out@ =~= src@.subrange(start as int, i as int + 1));
        i += 1;
    }
    out
}

/// Encodes one request body. Rejects inputs over the wire format's bounds —
/// too many arguments first — rather than wrapping a length field.
pub fn encode_req(args: &Vec<Vec<u8>>) -> (r: Result<Vec<u8>, CodecError>)
    ensures
        match r {
            Ok(b) => req_args_ok(views(args@)) && b@ == req_body(views(args@)),
            Err(e) => !req_args_ok(views(args@)) && e == if views(args@).len() > 0xFFFF {
                CodecError::TooManyArgs
            } else {
                CodecError::ArgTooLong
            },
        },
{
    let n = args.len();
    if n > 0xFFFF {
        return Err(CodecError::TooManyArgs);
    }
    let mut i: usize = 0;
    while i < n
        invariant
            i <= n,
            n <= 0xFFFF,
            n == args@.len(),
            forall|j: int| 0 <= j < i ==> (#[trigger] views(args@)[j]).len() <= 0xFFFF_FFFF,
        decreases n - i,
    {
        if args[i].len() as u64 > 0xFFFF_FFFFu64 {
            proof {
                let v = views(args@);
                assert(v.len() == args@.len());
                assert(v[i as int] == args@[i as int]@);
                assert(v[i as int].len() > 0xFFFF_FFFF);
                assert(!req_args_ok(v));
            }
            return Err(CodecError::ArgTooLong);
        }
        i += 1;
    }
    assert(req_args_ok(views(args@)));

    let mut buf: Vec<u8> = Vec::new();
    push_be16(&mut buf, n as u16);
    let mut i: usize = 0;
    while i < n
        invariant
            i <= n,
            n == args@.len(),
            req_args_ok(views(args@)),
            buf@ == be16(n as u16) + lens_bytes(views(args@).take(i as int)),
        decreases n - i,
    {
        push_be32(&mut buf, args[i].len() as u32);
        proof {
            let v = views(args@);
            lemma_lens_bytes_snoc(v.take(i as int), v[i as int]);
            assert(v.take(i as int).push(v[i as int]) =~= v.take(i as int + 1));
            assert(buf@ =~= be16(n as u16) + lens_bytes(v.take(i as int + 1)));
        }
        i += 1;
    }
    assert(views(args@).take(n as int) =~= views(args@));

    let mut i: usize = 0;
    while i < n
        invariant
            i <= n,
            n == args@.len(),
            req_args_ok(views(args@)),
            buf@ == be16(n as u16) + lens_bytes(views(args@)) + cat_args(
                views(args@).take(i as int),
            ),
        decreases n - i,
    {
        push_bytes(&mut buf, &args[i]);
        proof {
            let v = views(args@);
            lemma_cat_args_snoc(v.take(i as int), v[i as int]);
            assert(v.take(i as int).push(v[i as int]) =~= v.take(i as int + 1));
            assert(buf@ =~= be16(n as u16) + lens_bytes(v) + cat_args(v.take(i as int + 1)));
        }
        i += 1;
    }
    proof {
        assert(views(args@).take(n as int) =~= views(args@));
        assert(buf@ =~= req_body(views(args@)));
    }
    Ok(buf)
}

/// Decodes one request body: `Some` exactly when the bytes are one complete,
/// well-formed encoding with nothing left over.
pub fn decode_req(b: &Vec<u8>) -> (r: Option<Vec<Vec<u8>>>)
    ensures
        match r {
            Some(args) => parse_req(b@) == Some(views(args@)),
            None => parse_req(b@) is None,
        },
{
    let blen = b.len();
    if blen < 2 {
        return None;
    }
    let n16 = read_be16(b, 0);
    let n = n16 as usize;
    assert(n == parsed_n(b@));
    if (blen as u64) < 2 + 4 * (n as u64) {
        return None;
    }

    let ghost slens = parsed_lens(b@);
    let mut lens: Vec<u64> = Vec::new();
    let mut total: u64 = 2 + 4 * (n as u64);
    let mut i: usize = 0;
    while i < n
        invariant
            i <= n,
            n <= 0xFFFF,
            n == parsed_n(b@),
            slens == parsed_lens(b@),
            blen == b@.len(),
            2 + 4 * n <= blen,
            lens@.len() == i,
            forall|j: int| 0 <= j < i ==> #[trigger] lens@[j] == slens[j],
            total == 2 + 4 * n + sum_lens(slens.take(i as int)),
            total <= 2 + 4 * 0xFFFF + (i as int) * 0xFFFF_FFFF,
        decreases n - i,
    {
        let l = read_be32(b, 2 + 4 * i);
        proof {
            assert(slens[i as int] == be32_val(b@.subrange(2 + 4 * (i as int), 2 + 4 * (i as int) + 4)));
            lemma_sum_lens_snoc(slens.take(i as int), slens[i as int]);
            assert(slens.take(i as int).push(slens[i as int]) =~= slens.take(i as int + 1));
        }
        lens.push(l as u64);
        total = total + l as u64;
        i += 1;
    }
    assert(slens.take(n as int) =~= slens);

    if (blen as u64) != total {
        return None;
    }
    assert(b@.len() == 2 + 4 * parsed_n(b@) + sum_lens(parsed_lens(b@)));

    let mut args: Vec<Vec<u8>> = Vec::new();
    let mut off: usize = 2 + 4 * n;
    let mut i: usize = 0;
    let ghost parsed = parse_req(b@).unwrap();
    while i < n
        invariant
            i <= n,
            n <= 0xFFFF,
            n == parsed_n(b@),
            slens == parsed_lens(b@),
            blen == b@.len(),
            blen == 2 + 4 * n + sum_lens(slens),
            forall|j: int| 0 <= j < n ==> #[trigger] lens@[j] == slens[j],
            lens@.len() == n,
            parsed == parse_req(b@).unwrap(),
            parse_req(b@) is Some,
            args@.len() == i,
            forall|j: int| 0 <= j < i ==> #[trigger] views(args@)[j] == parsed[j],
            off == 2 + 4 * n + sum_lens(slens.take(i as int)),
            off <= blen,
        decreases n - i,
    {
        proof {
            lemma_sum_lens_prefix(slens, i as int);
            // the remaining lengths bound this argument's length
            assert(slens.skip(i as int)[0] == slens[i as int]);
            assert(sum_lens(slens.skip(i as int)) == slens[i as int] + sum_lens(
                slens.skip(i as int).drop_first(),
            ));
            lemma_sum_lens_snoc(slens.take(i as int), slens[i as int]);
            assert(slens.take(i as int).push(slens[i as int]) =~= slens.take(i as int + 1));
        }
        proof {
            assert(slens[i as int] == be32_val(
                b@.subrange(2 + 4 * (i as int), 2 + 4 * (i as int) + 4),
            ));
            lemma_be32_val_bound(b@.subrange(2 + 4 * (i as int), 2 + 4 * (i as int) + 4));
        }
        let l = lens[i] as usize;
        let a = copy_range(b, off, off + l);
        proof {
            assert(a@ == b@.subrange(off as int, off as int + slens[i as int]));
            assert(parsed[i as int] == b@.subrange(
                2 + 4 * (n as int) + sum_lens(slens.take(i as int)),
                2 + 4 * (n as int) + sum_lens(slens.take(i as int)) + slens[i as int],
            ));
        }
        let ghost pre = args@;
        args.push(a);
        proof {
            assert forall|j: int| 0 <= j < i + 1 implies #[trigger] views(args@)[j]
                == parsed[j] by {
                if j < i {
                    assert(args@[j] == pre[j]);
                    assert(views(pre)[j] == parsed[j]);
                } else {
                    assert(args@[j] == a);
                }
            }
        }
        off = off + l;
        i += 1;
    }
    proof {
        assert(views(args@) =~= parsed);
        assert(parse_req(b@) == Some(views(args@)));
    }
    Some(args)
}

// --- frame envelope and stream framing ---
//
// The request-body format alone does not say how inbound requests are told
// apart from inbound responses, nor how a reader finds frame boundaries in
// the byte stream. This crate settles both, and documents the choice here:
// every frame starts with one message-type byte (0 = request,
// 1 = response) and the big-endian `u64` request identifier it concerns;
// a request frame's body is a request body as above, a response frame's
// body is the raw response payload. On the wire each frame is preceded by
// its length as a big-endian `u64`.

/// Whether a frame carries a request or a response.
#[derive(Clone, Copy, Debug, PartialEq, Eq, Structural)]
pub enum MsgKind {
    Request,
    Response,
}

/// The message-type byte of a frame.
pub open spec fn kind_byte(k: MsgKind) -> u8 {
    match k {
        MsgKind::Request => 0,
        MsgKind::Response => 1,
    }
}

/// One frame: message type, request identifier, body.
pub open spec fn frame_bytes(k: MsgKind, reqno: u64, body: Seq<u8>) -> Seq<u8> {
    seq![kind_byte(k)] + be64(reqno) + body
}

/// Parses one frame: `Some` exactly when the type byte is known and the
/// fixed header is complete.
pub open spec fn parse_frame(b: Seq<u8>) -> Option<(MsgKind, u64, Seq<u8>)> {
    if b.len() < 9 {
        None
    } else if b[0] == 0 {
        Some((MsgKind::Request, (be64_val(b.subrange(1, 9)) as u64), b.skip(9)))
    } else if b[0] == 1 {
        Some((MsgKind::Response, (be64_val(b.subrange(1, 9)) as u64), b.skip(9)))
    } else {
        None
    }
}

/// Eight big-endian bytes always read below `2^64`.
pub proof fn lemma_be64_val_bound(b: Seq<u8>)
    ensures
        be64_val(b) < 0x1_0000_0000_0000_0000,
{
    lemma_be32_val_bound(b.subrange(0, 4));
    lemma_be32_val_bound(b.subrange(4, 8));
}

/// Round trip at the frame level: parsing an encoded frame yields back its
/// message type, request identifier and body.
pub proof fn lemma_frame_round_trip(k: MsgKind, reqno: u64, body: Seq<u8>)
    ensures
        parse_frame(frame_bytes(k, reqno, body)) == Some((k, reqno, body)),
{
    let f = frame_bytes(k, reqno, body);
    lemma_be64_round(reqno);
    assert(f[0] == kind_byte(k));
    assert(f.subrange(1, 9) =~= be64(reqno));
    assert(f.skip(9) =~= body);
}

/// One on-wire unit: the frame's length, then the frame.
pub open spec fn wire_bytes(frame: Seq<u8>) -> Seq<u8> {
    be64(frame.len() as u64) + frame
}

/// Splits one complete on-wire unit off the front of a read buffer:
/// `Some((frame, rest))` exactly when the buffer begins with a complete
/// length-prefixed frame.
pub open spec fn wire_split(b: Seq<u8>) -> Option<(Seq<u8>, Seq<u8>)> {
    if b.len() < 8 {
        None
    } else {
        let l = be64_val(b.subrange(0, 8)) as int;
        if b.len() < 8 + l {
            None
        } else {
            Some((b.subrange(8, 8 + l), b.skip(8 + l)))
        }
    }
}

/// Round trip at the stream level: a complete on-wire unit followed by any
/// trailing bytes splits into exactly that frame and those bytes.
pub proof fn lemma_wire_round_trip(frame: Seq<u8>, rest: Seq<u8>)
    requires
        frame.len() <= u64::MAX,
    ensures
        wire_split(wire_bytes(frame) + rest) == Some((frame, rest)),
{
    let b = wire_bytes(frame) + rest;
    lemma_be64_round(frame.len() as u64);
    assert(b.subrange(0, 8) =~= be64(frame.len() as u64));
    assert(b.subrange(8, 8 + frame.len() as int) =~= frame);
    assert(b.skip(8 + frame.len() as int) =~= rest);
}

/// Encodes one complete on-wire unit: length prefix, type byte, request
/// identifier, body.
pub fn encode_wire(k: MsgKind, reqno: u64, body: &Vec<u8>) -> (r: Vec<u8>)
    requires
        body@.len() + 9 <= u64::MAX,
    ensures
        r@ == wire_bytes(frame_bytes(k, reqno, body@)),
{
    let n = body.len();
    let mut out: Vec<u8> = Vec::new();
    push_be64(&mut out, (n as u64) + 9);
    let kb: u8 = match k {
        MsgKind::Request => 0,
        MsgKind::Response => 1,
    };
    out.push(kb);
    push_be64(&mut out, reqno);
    push_bytes(&mut out, body);
    proof {
        assert(frame_bytes(k, reqno, body@).len() == 9 + body@.len());
        assert(out@ =~= wire_bytes(frame_bytes(k, reqno, body@)));
    }
    out
}

/// Decodes one frame's envelope.
pub fn decode_frame(b: &Vec<u8>) -> (r: Option<(MsgKind, u64, Vec<u8>)>)
    ensures
        match r {
            Some(p) => parse_frame(b@) == Some((p.0, p.1, p.2@)),
            None => parse_frame(b@) is None,
        },
{
    let blen = b.len();
    if blen < 9 {
        return None;
    }
    let kb = b[0];
    if kb > 1 {
        return None;
    }
    let k = if kb == 0 {
        MsgKind::Request
    } else {
        MsgKind::Response
    };
    let reqno = read_be64(b, 1);
    let body = copy_range(b, 9, blen);
    proof {
        assert(b@.subrange(9, blen as int) =~= b@.skip(9));
    }
    Some((k, reqno, body))
}

/// Takes one complete length-prefixed frame off the front of the read
/// buffer, leaving the rest; leaves the buffer unchanged while no complete
/// frame has arrived yet.
pub fn take_frame(buf: &mut Vec<u8>) -> (r: Option<Vec<u8>>)
    ensures
        match r {
            Some(f) => wire_split(old(buf)@) == Some((f@, final(buf)@)),
            None => wire_split(old(buf)@) is None && final(buf)@ == old(buf)@,
        },
{
    let blen = buf.len();
    if blen < 8 {
        return None;
    }
    let l64 = read_be64(buf, 0);
    if l64 > (blen as u64) - 8 {
        return None;
    }
    let l = l64 as usize;
    let f = copy_range(buf, 8, 8 + l);
    let rest = copy_range(buf, 8 + l, blen);
    proof {
        assert(rest@ =~= buf@.skip(8 + l as int));
    }
    *buf = rest;
    Some(f)
}

} // verus!
