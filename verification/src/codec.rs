//! The snapshot byte format: a versioned envelope holding the registry
//! records, the projects, and the id-allocation counter. Encoding and
//! decoding are specified as pure functions on byte sequences, decoding is
//! proved to invert encoding, and the executable encoder and decoder are
//! proved to implement them.
//!
//! Layout: one version byte; the record count as a little-endian `u64`,
//! then each record (identity as a length-prefixed byte string, then the
//! registration time); the project count, then each project (id; title and
//! description as length-prefixed sequences of characters, four bytes per
//! character; creator; creation time; collaborator count, then each
//! collaborator); finally the counter. No trailing bytes are allowed.

use vstd::prelude::*;

use vstd::bytes::{
    lemma_auto_spec_u32_to_from_le_bytes, lemma_auto_spec_u64_to_from_le_bytes,
    spec_u32_from_le_bytes, spec_u32_to_le_bytes, spec_u64_from_le_bytes, spec_u64_to_le_bytes,
    u32_from_le_bytes, u32_to_le_bytes, u64_from_le_bytes, u64_to_le_bytes,
};
use vstd::slice::slice_subrange;

verus! {

use crate::identity::Identity;
use crate::projects::{Project, ProjectModel};
use crate::registry::{RecordModel, RegistrationRecord};
use crate::state::StateModel;
use vstd::string::StrSliceExecFns;

/// The version byte that opens every snapshot this library writes.
pub const SNAPSHOT_VERSION: u8 = 1;

// ---------------------------------------------------------------------
// Primitive encoders and decoders.
// ---------------------------------------------------------------------
/// A `u64` as eight little-endian bytes.
pub open spec fn enc_u64(x: u64) -> Seq<u8> {
    spec_u64_to_le_bytes(x)
}

/// A `u32` as four little-endian bytes.
pub open spec fn enc_u32(x: u32) -> Seq<u8> {
    spec_u32_to_le_bytes(x)
}

/// Reads a `u64` off the front of `b`.
pub open spec fn dec_u64(b: Seq<u8>) -> Option<(u64, Seq<u8>)> {
    if b.len() >= 8 {
        Some((spec_u64_from_le_bytes(b.take(8)), b.skip(8)))
    } else {
        None
    }
}

/// Reads a `u32` off the front of `b`.
pub open spec fn dec_u32(b: Seq<u8>) -> Option<(u32, Seq<u8>)> {
    if b.len() >= 4 {
        Some((spec_u32_from_le_bytes(b.take(4)), b.skip(4)))
    } else {
        None
    }
}

/// A byte string, prefixed with its length.
pub open spec fn enc_bytes(s: Seq<u8>) -> Seq<u8> {
    enc_u64(s.len() as u64) + s
}

/// Reads a length-prefixed byte string off the front of `b`.
pub open spec fn dec_bytes(b: Seq<u8>) -> Option<(Seq<u8>, Seq<u8>)> {
    match dec_u64(b) {
        None => None,
        Some((n, rest)) => if rest.len() >= n {
            Some((rest.take(n as int), rest.skip(n as int)))
        } else {
            None
        },
    }
}

/// The code points `char` can hold: a Unicode scalar value.
pub open spec fn is_scalar_value(u: u32) -> bool {
    u <= 0xD7FF || (0xE000 <= u && u <= 0x10FFFF)
}

/// Reads one character, written as its code point in four bytes.
pub open spec fn dec_char(b: Seq<u8>) -> Option<(char, Seq<u8>)> {
    match dec_u32(b) {
        None => None,
        Some((u, rest)) => if is_scalar_value(u) {
            Some((u as char, rest))
        } else {
            None
        },
    }
}

/// A character sequence, one code point each, without a length prefix.
pub open spec fn enc_char_seq(s: Seq<char>) -> Seq<u8>
    decreases s.len(),
{
    if s.len() == 0 {
        Seq::empty()
    } else {
        enc_u32(s[0] as u32) + enc_char_seq(s.drop_first())
    }
}

/// Reads exactly `n` characters off the front of `b`.
pub open spec fn dec_char_seq(b: Seq<u8>, n: nat) -> Option<(Seq<char>, Seq<u8>)>
    decreases n,
{
    if n == 0 {
        Some((Seq::empty(), b))
    } else {
        match dec_char(b) {
            None => None,
            Some((c, rest)) => match dec_char_seq(rest, (n - 1) as nat) {
                None => None,
                Some((s, rest2)) => Some((seq![c] + s, rest2)),
            },
        }
    }
}

/// A character sequence, prefixed with its length.
pub open spec fn enc_chars(s: Seq<char>) -> Seq<u8> {
    enc_u64(s.len() as u64) + enc_char_seq(s)
}

/// Reads a length-prefixed character sequence off the front of `b`.
pub open spec fn dec_chars(b: Seq<u8>) -> Option<(Seq<char>, Seq<u8>)> {
    match dec_u64(b) {
        None => None,
        Some((n, rest)) => dec_char_seq(rest, n as nat),
    }
}

// ---------------------------------------------------------------------
// Round-trip lemmas for the primitives: decoding what was encoded yields
// the value back and leaves exactly the trailing bytes.
// ---------------------------------------------------------------------
/// Decoding inverts `enc_u64` at the front of a stream.
pub proof fn lemma_dec_u64(x: u64, rest: Seq<u8>)
    ensures
        dec_u64(enc_u64(x) + rest) == Some((x, rest)),
{
    lemma_auto_spec_u64_to_from_le_bytes();
    let b = enc_u64(x) + rest;
    assert(b.take(8) =~= enc_u64(x));
    assert(b.skip(8) =~= rest);
}

/// Decoding inverts `enc_u32` at the front of a stream.
pub proof fn lemma_dec_u32(x: u32, rest: Seq<u8>)
    ensures
        dec_u32(enc_u32(x) + rest) == Some((x, rest)),
{
    lemma_auto_spec_u32_to_from_le_bytes();
    let b = enc_u32(x) + rest;
    assert(b.take(4) =~= enc_u32(x));
    assert(b.skip(4) =~= rest);
}

/// Decoding inverts `enc_bytes` at the front of a stream.
pub proof fn lemma_dec_bytes(s: Seq<u8>, rest: Seq<u8>)
    requires
        s.len() <= u64::MAX,
    ensures
        dec_bytes(enc_bytes(s) + rest) == Some((s, rest)),
{
    let tail = s + rest;
    assert(enc_bytes(s) + rest =~= enc_u64(s.len() as u64) + tail);
    lemma_dec_u64(s.len() as u64, tail);
    assert(tail.take(s.len() as int) =~= s);
    assert(tail.skip(s.len() as int) =~= rest);
}

/// Decoding inverts the one-character encoding at the front of a stream.
pub proof fn lemma_dec_char(c: char, rest: Seq<u8>)
    ensures
        dec_char(enc_u32(c as u32) + rest) == Some((c, rest)),
{
    lemma_dec_u32(c as u32, rest);
}

/// Decoding inverts `enc_char_seq` at the front of a stream, reading as
/// many characters as were written.
pub proof fn lemma_dec_char_seq(s: Seq<char>, rest: Seq<u8>)
    ensures
        dec_char_seq(enc_char_seq(s) + rest, s.len()) == Some((s, rest)),
    decreases s.len(),
{
    if s.len() == 0 {
        assert(enc_char_seq(s) + rest =~= rest);
        assert(s =~= Seq::<char>::empty());
    } else {
        let tail = enc_char_seq(s.drop_first()) + rest;
        assert(enc_char_seq(s) + rest =~= enc_u32(s[0] as u32) + tail);
        lemma_dec_char(s[0], tail);
        lemma_dec_char_seq(s.drop_first(), rest);
        assert(seq![s[0]] + s.drop_first() =~= s);
    }
}

/// Decoding inverts `enc_chars` at the front of a stream.
pub proof fn lemma_dec_chars(s: Seq<char>, rest: Seq<u8>)
    requires
        s.len() <= u64::MAX,
    ensures
        dec_chars(enc_chars(s) + rest) == Some((s, rest)),
{
    let tail = enc_char_seq(s) + rest;
    assert(enc_chars(s) + rest =~= enc_u64(s.len() as u64) + tail);
    lemma_dec_u64(s.len() as u64, tail);
    lemma_dec_char_seq(s, rest);
}

/// Appending one character extends its encoding at the back, which lets a
/// loop that walks a string left to right build `enc_char_seq` as it goes.
pub proof fn lemma_enc_char_seq_push(s: Seq<char>, c: char)
    ensures
        enc_char_seq(s.push(c)) == enc_char_seq(s) + enc_u32(c as u32),
    decreases s.len(),
{
    if s.len() == 0 {
        let t = s.push(c);
        assert(t[0] == c);
        assert(t.drop_first() =~= Seq::<char>::empty());
        assert(enc_char_seq(t.drop_first()) == Seq::<u8>::empty());
        assert(enc_char_seq(t) == enc_u32(c as u32) + enc_char_seq(t.drop_first()));
        assert(enc_u32(c as u32) + Seq::<u8>::empty() =~= enc_u32(c as u32));
        assert(enc_char_seq(s) == Seq::<u8>::empty());
        assert(Seq::<u8>::empty() + enc_u32(c as u32) =~= enc_u32(c as u32));
    } else {
        assert(s.push(c).drop_first() =~= s.drop_first().push(c));
        lemma_enc_char_seq_push(s.drop_first(), c);
        assert(s.push(c)[0] == s[0]);
        assert(enc_char_seq(s.push(c)) =~= enc_char_seq(s) + enc_u32(c as u32));
    }
}

// ---------------------------------------------------------------------
// Executable encoders for the primitives.
// ---------------------------------------------------------------------
/// Appends the eight-byte encoding of `x` to `out`.
pub fn push_u64(out: &mut Vec<u8>, x: u64)
    ensures
        final(out)@ == old(out)@ + enc_u64(x),
{
    let mut b = u64_to_le_bytes(x);
    out.append(&mut b);
}

/// Appends the four-byte encoding of `x` to `out`.
pub fn push_u32(out: &mut Vec<u8>, x: u32)
    ensures
        final(out)@ == old(out)@ + enc_u32(x),
{
    let mut b = u32_to_le_bytes(x);
    out.append(&mut b);
}

/// Appends the length-prefixed encoding of the byte string `s` to `out`.
pub fn push_bytes(out: &mut Vec<u8>, s: &Vec<u8>)
    ensures
        final(out)@ == old(out)@ + enc_bytes(s@),
{
    push_u64(out, s.len() as u64);
    let ghost mid = out@;
    let n = s.len();
    let mut i: usize = 0;
    while i < n
        invariant
            0 <= i <= n,
            n == s@.len(),
            out@ == mid + s@.take(i as int),
        decreases n - i,
    {
        let ghost prev = out@;
        out.push(s[i]);
        proof {
            assert(out@ =~= mid + s@.take(i + 1));
        }
        i += 1;
    }
    proof {
        assert(s@.take(n as int) =~= s@);
        assert(out@ =~= old(out)@ + enc_bytes(s@));
    }
}

/// Appends the length-prefixed encoding of the characters of `s` to `out`.
pub fn push_chars(out: &mut Vec<u8>, s: &str)
    ensures
        final(out)@ == old(out)@ + enc_chars(s@),
{
    let n = s.unicode_len();
    push_u64(out, n as u64);
    let ghost mid = out@;
    let mut i: usize = 0;
    proof {
        assert(s@.take(0) =~= Seq::<char>::empty());
        assert(out@ =~= mid + enc_char_seq(s@.take(0)));
    }
    while i < n
        invariant
            0 <= i <= n,
            n == s@.len(),
            out@ == mid + enc_char_seq(s@.take(i as int)),
        decreases n - i,
    {
        let c = s.get_char(i);
        push_u32(out, c as u32);
        proof {
            assert(s@.take(i as int).push(c) =~= s@.take(i + 1));
            lemma_enc_char_seq_push(s@.take(i as int), c);
            assert(out@ =~= mid + enc_char_seq(s@.take(i + 1)));
        }
        i += 1;
    }
    proof {
        assert(s@.take(n as int) =~= s@);
        assert(out@ =~= old(out)@ + enc_chars(s@));
    }
}

// ---------------------------------------------------------------------
// Executable decoders for the primitives. Each one reads at a position in
// the byte vector and agrees with the specification decoder applied to the
// bytes from that position on.
// ---------------------------------------------------------------------
/// Reads a `u64` at `pos`.
pub fn read_u64(b: &Vec<u8>, pos: usize) -> (r: Option<(u64, usize)>)
    requires
        pos <= b@.len(),
    ensures
        match r {
            Some((x, p2)) => pos <= p2 <= b@.len() && dec_u64(b@.skip(pos as int)) == Some(
                (x, b@.skip(p2 as int)),
            ),
            None => dec_u64(b@.skip(pos as int)) is None,
        },
{
    if b.len() - pos >= 8 {
        let sub = slice_subrange(b.as_slice(), pos, pos + 8);
        let x = u64_from_le_bytes(sub);
        proof {
            assert(sub@ =~= b@.skip(pos as int).take(8));
            assert(b@.skip(pos as int).skip(8) =~= b@.skip(pos + 8));
        }
        Some((x, pos + 8))
    } else {
        None
    }
}

/// Reads a `u32` at `pos`.
pub fn read_u32(b: &Vec<u8>, pos: usize) -> (r: Option<(u32, usize)>)
    requires
        pos <= b@.len(),
    ensures
        match r {
            Some((x, p2)) => pos <= p2 <= b@.len() && dec_u32(b@.skip(pos as int)) == Some(
                (x, b@.skip(p2 as int)),
            ),
            None => dec_u32(b@.skip(pos as int)) is None,
        },
{
    if b.len() - pos >= 4 {
        let sub = slice_subrange(b.as_slice(), pos, pos + 4);
        let x = u32_from_le_bytes(sub);
        proof {
            assert(sub@ =~= b@.skip(pos as int).take(4));
            assert(b@.skip(pos as int).skip(4) =~= b@.skip(pos + 4));
        }
        Some((x, pos + 4))
    } else {
        None
    }
}

/// Reads a length-prefixed byte string at `pos`.
pub fn read_bytes(b: &Vec<u8>, pos: usize) -> (r: Option<(Vec<u8>, usize)>)
    requires
        pos <= b@.len(),
    ensures
        match r {
            Some((s, p2)) => pos <= p2 <= b@.len() && dec_bytes(b@.skip(pos as int)) == Some(
                (s@, b@.skip(p2 as int)),
            ),
            None => dec_bytes(b@.skip(pos as int)) is None,
        },
{
    match read_u64(b, pos) {
        None => None,
        Some((n, p1)) => {
            if n <= (b.len() - p1) as u64 {
                let end = p1 + (n as usize);
                let sub = slice_subrange(b.as_slice(), p1, end);
                let s = vstd::slice::slice_to_vec(sub);
                proof {
                    let rest = b@.skip(pos as int).skip(8);
                    assert(rest =~= b@.skip(p1 as int));
                    assert(sub@ =~= rest.take(n as int));
                    assert(rest.skip(n as int) =~= b@.skip(end as int));
                }
                Some((s, end))
            } else {
                proof {
                    let rest = b@.skip(pos as int).skip(8);
                    assert(rest =~= b@.skip(p1 as int));
                }
                None
            }
        },
    }
}

/// Reads a length-prefixed character sequence at `pos`, as the characters
/// of a `String`.
pub fn read_chars(b: &Vec<u8>, pos: usize) -> (r: Option<(String, usize)>)
    requires
        pos <= b@.len(),
    ensures
        match r {
            Some((s, p2)) => pos <= p2 <= b@.len() && dec_chars(b@.skip(pos as int)) == Some(
                (s@, b@.skip(p2 as int)),
            ),
            None => dec_chars(b@.skip(pos as int)) is None,
        },
{
    let ghost orig = b@.skip(pos as int);
    match read_u64(b, pos) {
        None => None,
        Some((n, p1)) => {
            let ghost start = b@.skip(p1 as int);
            let mut chars: Vec<char> = Vec::new();
            let mut p = p1;
            let mut i: u64 = 0;
            proof {
                assert(chars@ =~= Seq::<char>::empty());
                if dec_char_seq(start, n as nat) is Some {
                    let rr = dec_char_seq(start, n as nat).unwrap();
                    assert(chars@ + rr.0 =~= rr.0);
                }
            }
            while i < n
                invariant
                    i <= n,
                    pos <= p1 <= p <= b@.len(),
                    orig == b@.skip(pos as int),
                    start == b@.skip(p1 as int),
                    chars@.len() == i,
                    dec_u64(orig) == Some((n, start)),
                    match dec_char_seq(b@.skip(p as int), (n - i) as nat) {
                        Some(rr) => dec_char_seq(start, n as nat) == Some(
                            (chars@ + rr.0, rr.1),
                        ),
                        None => dec_char_seq(start, n as nat) is None,
                    },
                decreases n - i,
            {
                let ghost suffix = b@.skip(p as int);
                let ghost remaining = (n - i) as nat;
                match read_u32(b, p) {
                    None => {
                        proof {
                            assert(dec_char(suffix) is None);
                            assert(dec_char_seq(suffix, remaining) is None);
                        }
                        return None;
                    },
                    Some((u, p2)) => {
                        if u <= 0xD7FF || (0xE000 <= u && u <= 0x10FFFF) {
                            let c = char_from_u32(u);
                            let ghost prev = chars@;
                            chars.push(c);
                            p = p2;
                            i = i + 1;
                            proof {
                                assert(dec_char(suffix) == Some((c, b@.skip(p2 as int))));
                                assert(chars@ =~= prev.push(c));
                                if dec_char_seq(b@.skip(p as int), (n - i) as nat) is Some {
                                    let rr = dec_char_seq(
                                        b@.skip(p as int),
                                        (n - i) as nat,
                                    ).unwrap();
                                    assert(dec_char_seq(suffix, remaining) == Some(
                                        (seq![c] + rr.0, rr.1),
                                    ));
                                    assert(prev + (seq![c] + rr.0) =~= chars@ + rr.0);
                                }
                            }
                        } else {
                            proof {
                                assert(dec_char(suffix) is None);
                                assert(dec_char_seq(suffix, remaining) is None);
                            }
                            return None;
                        }
                    },
                }
            }
            let s = string_from_chars(&chars);
            proof {
                assert(dec_char_seq(b@.skip(p as int), 0) == Some(
                    (Seq::<char>::empty(), b@.skip(p as int)),
                ));
                assert(chars@ + Seq::<char>::empty() =~= chars@);
                assert(dec_chars(orig) == Some((s@, b@.skip(p as int))));
            }
            Some((s, p))
        },
    }
}

// ---------------------------------------------------------------------
// Records and projects.
// ---------------------------------------------------------------------
/// One registration record: the identity, then the registration time.
pub open spec fn enc_record(r: RecordModel) -> Seq<u8> {
    enc_bytes(r.identity) + enc_u64(r.registered_at)
}

/// Reads one registration record off the front of `b`.
pub open spec fn dec_record(b: Seq<u8>) -> Option<(RecordModel, Seq<u8>)> {
    match dec_bytes(b) {
        None => None,
        Some((identity, r1)) => match dec_u64(r1) {
            None => None,
            Some((t, r2)) => Some((RecordModel { identity, registered_at: t }, r2)),
        },
    }
}

/// Registration records, one after the other, without a count prefix.
pub open spec fn enc_record_list(l: Seq<RecordModel>) -> Seq<u8>
    decreases l.len(),
{
    if l.len() == 0 {
        Seq::empty()
    } else {
        enc_record(l[0]) + enc_record_list(l.drop_first())
    }
}

/// Reads exactly `n` registration records off the front of `b`.
pub open spec fn dec_record_list(b: Seq<u8>, n: nat) -> Option<(Seq<RecordModel>, Seq<u8>)>
    decreases n,
{
    if n == 0 {
        Some((Seq::empty(), b))
    } else {
        match dec_record(b) {
            None => None,
            Some((r, rest)) => match dec_record_list(rest, (n - 1) as nat) {
                None => None,
                Some((l, rest2)) => Some((seq![r] + l, rest2)),
            },
        }
    }
}

/// Byte strings, one after the other, without a count prefix: the
/// collaborator identities of one project.
pub open spec fn enc_bytes_list(l: Seq<Seq<u8>>) -> Seq<u8>
    decreases l.len(),
{
    if l.len() == 0 {
        Seq::empty()
    } else {
        enc_bytes(l[0]) + enc_bytes_list(l.drop_first())
    }
}

/// Reads exactly `n` byte strings off the front of `b`.
pub open spec fn dec_bytes_list(b: Seq<u8>, n: nat) -> Option<(Seq<Seq<u8>>, Seq<u8>)>
    decreases n,
{
    if n == 0 {
        Some((Seq::empty(), b))
    } else {
        match dec_bytes(b) {
            None => None,
            Some((s, rest)) => match dec_bytes_list(rest, (n - 1) as nat) {
                None => None,
                Some((l, rest2)) => Some((seq![s] + l, rest2)),
            },
        }
    }
}

/// One project: id, title, description, creator, creation time, then the
/// collaborators with their count.
pub open spec fn enc_project(p: ProjectModel) -> Seq<u8> {
    enc_u64(p.id) + enc_chars(p.title) + enc_chars(p.description) + enc_bytes(p.creator) + enc_u64(
        p.created_at,
    ) + enc_u64(p.collaborators.len() as u64) + enc_bytes_list(p.collaborators)
}

/// Reads one project off the front of `b`.
pub open spec fn dec_project(b: Seq<u8>) -> Option<(ProjectModel, Seq<u8>)> {
    match dec_u64(b) {
        None => None,
        Some((id, r1)) => match dec_chars(r1) {
            None => None,
            Some((title, r2)) => match dec_chars(r2) {
                None => None,
                Some((description, r3)) => match dec_bytes(r3) {
                    None => None,
                    Some((creator, r4)) => match dec_u64(r4) {
                        None => None,
                        Some((created_at, r5)) => match dec_u64(r5) {
                            None => None,
                            Some((nc, r6)) => match dec_bytes_list(r6, nc as nat) {
                                None => None,
                                Some((collaborators, r7)) => Some(
                                    (
                                        ProjectModel {
                                            id,
                                            title,
                                            description,
                                            creator,
                                            created_at,
                                            collaborators,
                                        },
                                        r7,
                                    ),
                                ),
                            },
                        },
                    },
                },
            },
        },
    }
}

/// Projects, one after the other, without a count prefix.
pub open spec fn enc_project_list(l: Seq<ProjectModel>) -> Seq<u8>
    decreases l.len(),
{
    if l.len() == 0 {
        Seq::empty()
    } else {
        enc_project(l[0]) + enc_project_list(l.drop_first())
    }
}

/// Reads exactly `n` projects off the front of `b`.
pub open spec fn dec_project_list(b: Seq<u8>, n: nat) -> Option<(Seq<ProjectModel>, Seq<u8>)>
    decreases n,
{
    if n == 0 {
        Some((Seq::empty(), b))
    } else {
        match dec_project(b) {
            None => None,
            Some((p, rest)) => match dec_project_list(rest, (n - 1) as nat) {
                None => None,
                Some((l, rest2)) => Some((seq![p] + l, rest2)),
            },
        }
    }
}

// ---------------------------------------------------------------------
// What encoding can represent: every length must fit its prefix. Models
// taken from executable values always satisfy these bounds.
// ---------------------------------------------------------------------
/// The identity of a record fits its length prefix.
pub open spec fn record_bounded(r: RecordModel) -> bool {
    r.identity.len() <= u64::MAX
}

/// Every sequence in a project fits its length or count prefix.
pub open spec fn project_bounded(p: ProjectModel) -> bool {
    &&& p.title.len() <= u64::MAX
    &&& p.description.len() <= u64::MAX
    &&& p.creator.len() <= u64::MAX
    &&& p.collaborators.len() <= u64::MAX
    &&& forall|i: int| 0 <= i < p.collaborators.len() ==> (#[trigger] p.collaborators[i]).len()
        <= u64::MAX
}

// ---------------------------------------------------------------------
// Round-trip lemmas for records and projects.
// ---------------------------------------------------------------------
/// Decoding inverts `enc_record` at the front of a stream.
pub proof fn lemma_dec_record(r: RecordModel, rest: Seq<u8>)
    requires
        record_bounded(r),
    ensures
        dec_record(enc_record(r) + rest) == Some((r, rest)),
{
    let t1 = enc_u64(r.registered_at) + rest;
    assert(enc_record(r) + rest =~= enc_bytes(r.identity) + t1);
    lemma_dec_bytes(r.identity, t1);
    lemma_dec_u64(r.registered_at, rest);
}

/// Decoding inverts `enc_record_list` at the front of a stream.
pub proof fn lemma_dec_record_list(l: Seq<RecordModel>, rest: Seq<u8>)
    requires
        forall|i: int| 0 <= i < l.len() ==> record_bounded(#[trigger] l[i]),
    ensures
        dec_record_list(enc_record_list(l) + rest, l.len()) == Some((l, rest)),
    decreases l.len(),
{
    if l.len() == 0 {
        assert(enc_record_list(l) + rest =~= rest);
        assert(l =~= Seq::<RecordModel>::empty());
    } else {
        let tail = enc_record_list(l.drop_first()) + rest;
        assert(enc_record_list(l) + rest =~= enc_record(l[0]) + tail);
        lemma_dec_record(l[0], tail);
        assert(forall|i: int|
            0 <= i < l.drop_first().len() ==> record_bounded(#[trigger] l.drop_first()[i]));
        lemma_dec_record_list(l.drop_first(), rest);
        assert(seq![l[0]] + l.drop_first() =~= l);
    }
}

/// Decoding inverts `enc_bytes_list` at the front of a stream.
pub proof fn lemma_dec_bytes_list(l: Seq<Seq<u8>>, rest: Seq<u8>)
    requires
        forall|i: int| 0 <= i < l.len() ==> (#[trigger] l[i]).len() <= u64::MAX,
    ensures
        dec_bytes_list(enc_bytes_list(l) + rest, l.len()) == Some((l, rest)),
    decreases l.len(),
{
    if l.len() == 0 {
        assert(enc_bytes_list(l) + rest =~= rest);
        assert(l =~= Seq::<Seq<u8>>::empty());
    } else {
        let tail = enc_bytes_list(l.drop_first()) + rest;
        assert(enc_bytes_list(l) + rest =~= enc_bytes(l[0]) + tail);
        lemma_dec_bytes(l[0], tail);
        assert(forall|i: int|
            0 <= i < l.drop_first().len() ==> (#[trigger] l.drop_first()[i]).len() <= u64::MAX);
        lemma_dec_bytes_list(l.drop_first(), rest);
        assert(seq![l[0]] + l.drop_first() =~= l);
    }
}

/// Decoding inverts `enc_project` at the front of a stream.
pub proof fn lemma_dec_project(p: ProjectModel, rest: Seq<u8>)
    requires
        project_bounded(p),
    ensures
        dec_project(enc_project(p) + rest) == Some((p, rest)),
{
    let t6 = enc_bytes_list(p.collaborators) + rest;
    let t5 = enc_u64(p.collaborators.len() as u64) + t6;
    let t4 = enc_u64(p.created_at) + t5;
    let t3 = enc_bytes(p.creator) + t4;
    let t2 = enc_chars(p.description) + t3;
    let t1 = enc_chars(p.title) + t2;
    assert(enc_project(p) + rest =~= enc_u64(p.id) + t1);
    lemma_dec_u64(p.id, t1);
    lemma_dec_chars(p.title, t2);
    lemma_dec_chars(p.description, t3);
    lemma_dec_bytes(p.creator, t4);
    lemma_dec_u64(p.created_at, t5);
    lemma_dec_u64(p.collaborators.len() as u64, t6);
    lemma_dec_bytes_list(p.collaborators, rest);
}

/// Decoding inverts `enc_project_list` at the front of a stream.
pub proof fn lemma_dec_project_list(l: Seq<ProjectModel>, rest: Seq<u8>)
    requires
        forall|i: int| 0 <= i < l.len() ==> project_bounded(#[trigger] l[i]),
    ensures
        dec_project_list(enc_project_list(l) + rest, l.len()) == Some((l, rest)),
    decreases l.len(),
{
    if l.len() == 0 {
        assert(enc_project_list(l) + rest =~= rest);
        assert(l =~= Seq::<ProjectModel>::empty());
    } else {
        let tail = enc_project_list(l.drop_first()) + rest;
        assert(enc_project_list(l) + rest =~= enc_project(l[0]) + tail);
        lemma_dec_project(l[0], tail);
        assert(forall|i: int|
            0 <= i < l.drop_first().len() ==> project_bounded(#[trigger] l.drop_first()[i]));
        lemma_dec_project_list(l.drop_first(), rest);
        assert(seq![l[0]] + l.drop_first() =~= l);
    }
}

/// Appending one record extends its list encoding at the back.
pub proof fn lemma_enc_record_list_push(l: Seq<RecordModel>, r: RecordModel)
    ensures
        enc_record_list(l.push(r)) == enc_record_list(l) + enc_record(r),
    decreases l.len(),
{
    if l.len() == 0 {
        let t = l.push(r);
        assert(t[0] == r);
        assert(t.drop_first() =~= Seq::<RecordModel>::empty());
        assert(enc_record_list(t.drop_first()) == Seq::<u8>::empty());
        assert(enc_record_list(t) == enc_record(r) + enc_record_list(t.drop_first()));
        assert(enc_record(r) + Seq::<u8>::empty() =~= enc_record(r));
        assert(enc_record_list(l) == Seq::<u8>::empty());
        assert(Seq::<u8>::empty() + enc_record(r) =~= enc_record(r));
    } else {
        assert(l.push(r).drop_first() =~= l.drop_first().push(r));
        lemma_enc_record_list_push(l.drop_first(), r);
        assert(l.push(r)[0] == l[0]);
        assert(enc_record_list(l.push(r)) =~= enc_record_list(l) + enc_record(r));
    }
}

/// Appending one byte string extends its list encoding at the back.
pub proof fn lemma_enc_bytes_list_push(l: Seq<Seq<u8>>, s: Seq<u8>)
    ensures
        enc_bytes_list(l.push(s)) == enc_bytes_list(l) + enc_bytes(s),
    decreases l.len(),
{
    if l.len() == 0 {
        let t = l.push(s);
        assert(t[0] == s);
        assert(t.drop_first() =~= Seq::<Seq<u8>>::empty());
        assert(enc_bytes_list(t.drop_first()) == Seq::<u8>::empty());
        assert(enc_bytes_list(t) == enc_bytes(s) + enc_bytes_list(t.drop_first()));
        assert(enc_bytes(s) + Seq::<u8>::empty() =~= enc_bytes(s));
        assert(enc_bytes_list(l) == Seq::<u8>::empty());
        assert(Seq::<u8>::empty() + enc_bytes(s) =~= enc_bytes(s));
    } else {
        assert(l.push(s).drop_first() =~= l.drop_first().push(s));
        lemma_enc_bytes_list_push(l.drop_first(), s);
        assert(l.push(s)[0] == l[0]);
        assert(enc_bytes_list(l.push(s)) =~= enc_bytes_list(l) + enc_bytes(s));
    }
}

/// Appending one project extends its list encoding at the back.
pub proof fn lemma_enc_project_list_push(l: Seq<ProjectModel>, p: ProjectModel)
    ensures
        enc_project_list(l.push(p)) == enc_project_list(l) + enc_project(p),
    decreases l.len(),
{
    if l.len() == 0 {
        let t = l.push(p);
        assert(t[0] == p);
        assert(t.drop_first() =~= Seq::<ProjectModel>::empty());
        assert(enc_project_list(t.drop_first()) == Seq::<u8>::empty());
        assert(enc_project_list(t) == enc_project(p) + enc_project_list(t.drop_first()));
        assert(enc_project(p) + Seq::<u8>::empty() =~= enc_project(p));
        assert(enc_project_list(l) == Seq::<u8>::empty());
        assert(Seq::<u8>::empty() + enc_project(p) =~= enc_project(p));
    } else {
        assert(l.push(p).drop_first() =~= l.drop_first().push(p));
        lemma_enc_project_list_push(l.drop_first(), p);
        assert(l.push(p)[0] == l[0]);
        assert(enc_project_list(l.push(p)) =~= enc_project_list(l) + enc_project(p));
    }
}

// ---------------------------------------------------------------------
// Executable encoders for records and projects.
// ---------------------------------------------------------------------
/// Appends the encoding of one registration record to `out`.
pub fn push_record(out: &mut Vec<u8>, r: &RegistrationRecord)
    ensures
        final(out)@ == old(out)@ + enc_record(r@),
{
    push_bytes(out, &r.identity.bytes);
    push_u64(out, r.registered_at);
    proof {
        assert(out@ =~= old(out)@ + enc_record(r@));
    }
}

/// Appends the encoding of one project to `out`.
pub fn push_project(out: &mut Vec<u8>, p: &Project)
    ensures
        final(out)@ == old(out)@ + enc_project(p@),
{
    push_u64(out, p.id);
    push_chars(out, p.title.as_str());
    push_chars(out, p.description.as_str());
    push_bytes(out, &p.creator.bytes);
    push_u64(out, p.created_at);
    push_u64(out, p.collaborators.len() as u64);
    let ghost mid = out@;
    let ghost collabs = p@.collaborators;
    let n = p.collaborators.len();
    let mut i: usize = 0;
    proof {
        assert(collabs.take(0) =~= Seq::<Seq<u8>>::empty());
        assert(out@ =~= mid + enc_bytes_list(collabs.take(0)));
    }
    while i < n
        invariant
            0 <= i <= n,
            n == p.collaborators@.len(),
            collabs == p@.collaborators,
            collabs.len() == n,
            forall|j: int| 0 <= j < n ==> collabs[j] == p.collaborators@[j]@,
            out@ == mid + enc_bytes_list(collabs.take(i as int)),
        decreases n - i,
    {
        push_bytes(out, &p.collaborators[i].bytes);
        proof {
            lemma_enc_bytes_list_push(collabs.take(i as int), collabs[i as int]);
            assert(collabs.take(i as int).push(collabs[i as int]) =~= collabs.take(i + 1));
            assert(out@ =~= mid + enc_bytes_list(collabs.take(i + 1)));
        }
        i += 1;
    }
    proof {
        assert(collabs.take(n as int) =~= collabs);
        assert(out@ =~= old(out)@ + enc_project(p@));
    }
}

// ---------------------------------------------------------------------
// Executable decoders for records and projects.
// ---------------------------------------------------------------------
/// Reads one registration record at `pos`.
pub fn read_record(b: &Vec<u8>, pos: usize) -> (r: Option<(RegistrationRecord, usize)>)
    requires
        pos <= b@.len(),
    ensures
        match r {
            Some((rec, p2)) => pos <= p2 <= b@.len() && dec_record(b@.skip(pos as int)) == Some(
                (rec@, b@.skip(p2 as int)),
            ),
            None => dec_record(b@.skip(pos as int)) is None,
        },
{
    match read_bytes(b, pos) {
        None => None,
        Some((identity, p1)) => match read_u64(b, p1) {
            None => None,
            Some((t, p2)) => Some(
                (RegistrationRecord { identity: Identity::new(identity), registered_at: t }, p2),
            ),
        },
    }
}

/// Reads one project at `pos`.
pub fn read_project(b: &Vec<u8>, pos: usize) -> (r: Option<(Project, usize)>)
    requires
        pos <= b@.len(),
    ensures
        match r {
            Some((p, p2)) => pos <= p2 <= b@.len() && dec_project(b@.skip(pos as int)) == Some(
                (p@, b@.skip(p2 as int)),
            ),
            None => dec_project(b@.skip(pos as int)) is None,
        },
{
    let ghost orig = b@.skip(pos as int);
    match read_u64(b, pos) {
        None => None,
        Some((id, p1)) => match read_chars(b, p1) {
            None => None,
            Some((title, p2)) => match read_chars(b, p2) {
                None => None,
                Some((description, p3)) => match read_bytes(b, p3) {
                    None => None,
                    Some((creator, p4)) => match read_u64(b, p4) {
                        None => None,
                        Some((created_at, p5)) => match read_u64(b, p5) {
                            None => None,
                            Some((nc, p6)) => match read_identity_list(b, p6, nc) {
                                None => None,
                                Some((collaborators, p7)) => {
                                    let p = Project {
                                        id,
                                        title,
                                        description,
                                        creator: Identity::new(creator),
                                        created_at,
                                        collaborators,
                                    };
                                    Some((p, p7))
                                },
                            },
                        },
                    },
                },
            },
        },
    }
}

/// Reads `n` byte strings at `pos`, as identities.
pub fn read_identity_list(b: &Vec<u8>, pos: usize, n: u64) -> (r: Option<(Vec<Identity>, usize)>)
    requires
        pos <= b@.len(),
    ensures
        match r {
            Some((l, p2)) => pos <= p2 <= b@.len() && dec_bytes_list(b@.skip(pos as int), n as nat)
                == Some((l@.map_values(|c: Identity| c@), b@.skip(p2 as int))),
            None => dec_bytes_list(b@.skip(pos as int), n as nat) is None,
        },
{
    let ghost start = b@.skip(pos as int);
    let mut items: Vec<Identity> = Vec::new();
    let mut p = pos;
    let mut i: u64 = 0;
    proof {
        assert(items@.map_values(|c: Identity| c@) =~= Seq::<Seq<u8>>::empty());
        if dec_bytes_list(start, n as nat) is Some {
            let rr = dec_bytes_list(start, n as nat).unwrap();
            assert(items@.map_values(|c: Identity| c@) + rr.0 =~= rr.0);
        }
    }
    while i < n
        invariant
            i <= n,
            pos <= p <= b@.len(),
            start == b@.skip(pos as int),
            items@.len() == i,
            match dec_bytes_list(b@.skip(p as int), (n - i) as nat) {
                Some(rr) => dec_bytes_list(start, n as nat) == Some(
                    (items@.map_values(|c: Identity| c@) + rr.0, rr.1),
                ),
                None => dec_bytes_list(start, n as nat) is None,
            },
        decreases n - i,
    {
        let ghost suffix = b@.skip(p as int);
        let ghost remaining = (n - i) as nat;
        match read_bytes(b, p) {
            None => {
                proof {
                    assert(dec_bytes(suffix) is None);
                    assert(dec_bytes_list(suffix, remaining) is None);
                }
                return None;
            },
            Some((s, p2)) => {
                let ghost prev = items@.map_values(|c: Identity| c@);
                let ghost sv = s@;
                items.push(Identity::new(s));
                p = p2;
                i = i + 1;
                proof {
                    assert(items@.map_values(|c: Identity| c@) =~= prev.push(sv));
                    if dec_bytes_list(b@.skip(p as int), (n - i) as nat) is Some {
                        let rr = dec_bytes_list(b@.skip(p as int), (n - i) as nat).unwrap();
                        assert(dec_bytes_list(suffix, remaining) == Some((seq![sv] + rr.0, rr.1)));
                        assert(prev + (seq![sv] + rr.0) =~= items@.map_values(|c: Identity| c@)
                            + rr.0);
                    }
                }
            },
        }
    }
    proof {
        assert(dec_bytes_list(b@.skip(p as int), 0) == Some(
            (Seq::<Seq<u8>>::empty(), b@.skip(p as int)),
        ));
        assert(items@.map_values(|c: Identity| c@) + Seq::<Seq<u8>>::empty() =~= items@.map_values(
            |c: Identity| c@,
        ));
    }
    Some((items, p))
}

/// Reads `n` registration records at `pos`.
pub fn read_record_list(b: &Vec<u8>, pos: usize, n: u64) -> (r: Option<
    (Vec<RegistrationRecord>, usize),
>)
    requires
        pos <= b@.len(),
    ensures
        match r {
            Some((l, p2)) => pos <= p2 <= b@.len() && dec_record_list(
                b@.skip(pos as int),
                n as nat,
            ) == Some((l@.map_values(|rec: RegistrationRecord| rec@), b@.skip(p2 as int))),
            None => dec_record_list(b@.skip(pos as int), n as nat) is None,
        },
{
    let ghost start = b@.skip(pos as int);
    let mut items: Vec<RegistrationRecord> = Vec::new();
    let mut p = pos;
    let mut i: u64 = 0;
    proof {
        assert(items@.map_values(|rec: RegistrationRecord| rec@) =~= Seq::<RecordModel>::empty());
        if dec_record_list(start, n as nat) is Some {
            let rr = dec_record_list(start, n as nat).unwrap();
            assert(items@.map_values(|rec: RegistrationRecord| rec@) + rr.0 =~= rr.0);
        }
    }
    while i < n
        invariant
            i <= n,
            pos <= p <= b@.len(),
            start == b@.skip(pos as int),
            items@.len() == i,
            match dec_record_list(b@.skip(p as int), (n - i) as nat) {
                Some(rr) => dec_record_list(start, n as nat) == Some(
                    (items@.map_values(|rec: RegistrationRecord| rec@) + rr.0, rr.1),
                ),
                None => dec_record_list(start, n as nat) is None,
            },
        decreases n - i,
    {
        let ghost suffix = b@.skip(p as int);
        let ghost remaining = (n - i) as nat;
        match read_record(b, p) {
            None => {
                proof {
                    assert(dec_record(suffix) is None);
                    assert(dec_record_list(suffix, remaining) is None);
                }
                return None;
            },
            Some((rec, p2)) => {
                let ghost prev = items@.map_values(|r2: RegistrationRecord| r2@);
                let ghost rv = rec@;
                items.push(rec);
                p = p2;
                i = i + 1;
                proof {
                    assert(items@.map_values(|r2: RegistrationRecord| r2@) =~= prev.push(rv));
                    if dec_record_list(b@.skip(p as int), (n - i) as nat) is Some {
                        let rr = dec_record_list(b@.skip(p as int), (n - i) as nat).unwrap();
                        assert(dec_record_list(suffix, remaining) == Some((seq![rv] + rr.0, rr.1)));
                        assert(prev + (seq![rv] + rr.0) =~= items@.map_values(
                            |r2: RegistrationRecord| r2@,
                        ) + rr.0);
                    }
                }
            },
        }
    }
    proof {
        assert(dec_record_list(b@.skip(p as int), 0) == Some(
            (Seq::<RecordModel>::empty(), b@.skip(p as int)),
        ));
        assert(items@.map_values(|rec: RegistrationRecord| rec@) + Seq::<RecordModel>::empty()
            =~= items@.map_values(|rec: RegistrationRecord| rec@));
    }
    Some((items, p))
}

/// Reads `n` projects at `pos`.
pub fn read_project_list(b: &Vec<u8>, pos: usize, n: u64) -> (r: Option<(Vec<Project>, usize)>)
    requires
        pos <= b@.len(),
    ensures
        match r {
            Some((l, p2)) => pos <= p2 <= b@.len() && dec_project_list(
                b@.skip(pos as int),
                n as nat,
            ) == Some((l@.map_values(|p3: Project| p3@), b@.skip(p2 as int))),
            None => dec_project_list(b@.skip(pos as int), n as nat) is None,
        },
{
    let ghost start = b@.skip(pos as int);
    let mut items: Vec<Project> = Vec::new();
    let mut p = pos;
    let mut i: u64 = 0;
    proof {
        assert(items@.map_values(|p3: Project| p3@) =~= Seq::<ProjectModel>::empty());
        if dec_project_list(start, n as nat) is Some {
            let rr = dec_project_list(start, n as nat).unwrap();
            assert(items@.map_values(|p3: Project| p3@) + rr.0 =~= rr.0);
        }
    }
    while i < n
        invariant
            i <= n,
            pos <= p <= b@.len(),
            start == b@.skip(pos as int),
            items@.len() == i,
            match dec_project_list(b@.skip(p as int), (n - i) as nat) {
                Some(rr) => dec_project_list(start, n as nat) == Some(
                    (items@.map_values(|p3: Project| p3@) + rr.0, rr.1),
                ),
                None => dec_project_list(start, n as nat) is None,
            },
        decreases n - i,
    {
        let ghost suffix = b@.skip(p as int);
        let ghost remaining = (n - i) as nat;
        match read_project(b, p) {
            None => {
                proof {
                    assert(dec_project(suffix) is None);
                    assert(dec_project_list(suffix, remaining) is None);
                }
                return None;
            },
            Some((proj, p2)) => {
                let ghost prev = items@.map_values(|p3: Project| p3@);
                let ghost pv = proj@;
                items.push(proj);
                p = p2;
                i = i + 1;
                proof {
                    assert(items@.map_values(|p3: Project| p3@) =~= prev.push(pv));
                    if dec_project_list(b@.skip(p as int), (n - i) as nat) is Some {
                        let rr = dec_project_list(b@.skip(p as int), (n - i) as nat).unwrap();
                        assert(dec_project_list(suffix, remaining) == Some(
                            (seq![pv] + rr.0, rr.1),
                        ));
                        assert(prev + (seq![pv] + rr.0) =~= items@.map_values(|p3: Project| p3@)
                            + rr.0);
                    }
                }
            },
        }
    }
    proof {
        assert(dec_project_list(b@.skip(p as int), 0) == Some(
            (Seq::<ProjectModel>::empty(), b@.skip(p as int)),
        ));
        assert(items@.map_values(|p3: Project| p3@) + Seq::<ProjectModel>::empty()
            =~= items@.map_values(|p3: Project| p3@));
    }
    Some((items, p))
}

// ---------------------------------------------------------------------
// The whole snapshot.
// ---------------------------------------------------------------------
/// The full snapshot: the version byte, the counted records, the counted
/// projects, and the id-allocation counter, with nothing after it.
pub open spec fn enc_state(v: StateModel) -> Seq<u8> {
    seq![SNAPSHOT_VERSION] + enc_u64(v.records.len() as u64) + enc_record_list(v.records) + enc_u64(
        v.projects.len() as u64,
    ) + enc_project_list(v.projects) + enc_u64(v.next_id)
}

/// Reads a whole snapshot: the version byte must match, every part must
/// decode, and no bytes may trail.
pub open spec fn dec_state(b: Seq<u8>) -> Option<StateModel> {
    if b.len() < 1 || b[0] != SNAPSHOT_VERSION {
        None
    } else {
        match dec_u64(b.skip(1)) {
            None => None,
            Some((nr, r1)) => match dec_record_list(r1, nr as nat) {
                None => None,
                Some((records, r2)) => match dec_u64(r2) {
                    None => None,
                    Some((np, r3)) => match dec_project_list(r3, np as nat) {
                        None => None,
                        Some((projects, r4)) => match dec_u64(r4) {
                            None => None,
                            Some((next_id, r5)) => if r5.len() == 0 {
                                Some(StateModel { records, projects, next_id })
                            } else {
                                None
                            },
                        },
                    },
                },
            },
        }
    }
}

/// Every length in the state fits its length or count prefix. Models taken
/// from executable values always satisfy this.
pub open spec fn state_bounded(v: StateModel) -> bool {
    &&& v.records.len() <= u64::MAX
    &&& forall|i: int| 0 <= i < v.records.len() ==> record_bounded(#[trigger] v.records[i])
    &&& v.projects.len() <= u64::MAX
    &&& forall|i: int| 0 <= i < v.projects.len() ==> project_bounded(#[trigger] v.projects[i])
}

/// Decoding inverts `enc_state`: a snapshot read back yields exactly the
/// state that was saved.
pub proof fn lemma_dec_state(v: StateModel)
    requires
        state_bounded(v),
    ensures
        dec_state(enc_state(v)) == Some(v),
{
    let b = enc_state(v);
    let t4 = enc_u64(v.next_id) + Seq::<u8>::empty();
    let t3 = enc_project_list(v.projects) + t4;
    let t2 = enc_u64(v.projects.len() as u64) + t3;
    let t1 = enc_record_list(v.records) + t2;
    let t0 = enc_u64(v.records.len() as u64) + t1;
    assert(b.len() >= 1);
    assert(b[0] == SNAPSHOT_VERSION);
    assert(b.skip(1) =~= t0);
    lemma_dec_u64(v.records.len() as u64, t1);
    lemma_dec_record_list(v.records, t2);
    lemma_dec_u64(v.projects.len() as u64, t3);
    lemma_dec_project_list(v.projects, t4);
    lemma_dec_u64(v.next_id, Seq::<u8>::empty());
}

/// Writes the snapshot of a state model held in executable parts.
pub fn write_state(
    records: &Vec<RegistrationRecord>,
    projects: &Vec<Project>,
    next_id: u64,
) -> (r: Vec<u8>)
    ensures
        r@ == enc_state(
            StateModel {
                records: records@.map_values(|rec: RegistrationRecord| rec@),
                projects: projects@.map_values(|p: Project| p@),
                next_id,
            },
        ),
{
    let ghost recs = records@.map_values(|rec: RegistrationRecord| rec@);
    let ghost projs = projects@.map_values(|p: Project| p@);
    let mut out: Vec<u8> = Vec::new();
    out.push(SNAPSHOT_VERSION);
    proof {
        assert(out@ =~= seq![SNAPSHOT_VERSION]);
    }
    push_u64(&mut out, records.len() as u64);
    let ghost mid1 = out@;
    let nr = records.len();
    let mut i: usize = 0;
    proof {
        assert(recs.take(0) =~= Seq::<RecordModel>::empty());
        assert(out@ =~= mid1 + enc_record_list(recs.take(0)));
    }
    while i < nr
        invariant
            0 <= i <= nr,
            nr == records@.len(),
            recs == records@.map_values(|rec: RegistrationRecord| rec@),
            recs.len() == nr,
            out@ == mid1 + enc_record_list(recs.take(i as int)),
        decreases nr - i,
    {
        push_record(&mut out, &records[i]);
        proof {
            lemma_enc_record_list_push(recs.take(i as int), recs[i as int]);
            assert(recs.take(i as int).push(recs[i as int]) =~= recs.take(i + 1));
            assert(out@ =~= mid1 + enc_record_list(recs.take(i + 1)));
        }
        i += 1;
    }
    proof {
        assert(recs.take(nr as int) =~= recs);
    }
    push_u64(&mut out, projects.len() as u64);
    let ghost mid2 = out@;
    let np = projects.len();
    let mut j: usize = 0;
    proof {
        assert(projs.take(0) =~= Seq::<ProjectModel>::empty());
        assert(out@ =~= mid2 + enc_project_list(projs.take(0)));
    }
    while j < np
        invariant
            0 <= j <= np,
            np == projects@.len(),
            projs == projects@.map_values(|p: Project| p@),
            projs.len() == np,
            out@ == mid2 + enc_project_list(projs.take(j as int)),
        decreases np - j,
    {
        push_project(&mut out, &projects[j]);
        proof {
            lemma_enc_project_list_push(projs.take(j as int), projs[j as int]);
            assert(projs.take(j as int).push(projs[j as int]) =~= projs.take(j + 1));
            assert(out@ =~= mid2 + enc_project_list(projs.take(j + 1)));
        }
        j += 1;
    }
    proof {
        assert(projs.take(np as int) =~= projs);
    }
    push_u64(&mut out, next_id);
    proof {
        assert(out@ =~= enc_state(StateModel { records: recs, projects: projs, next_id }));
    }
    out
}

/// Reads a whole snapshot, agreeing with `dec_state` on the bytes.
pub fn read_state(b: &Vec<u8>) -> (r: Option<(Vec<RegistrationRecord>, Vec<Project>, u64)>)
    ensures
        match r {
            Some((records, projects, next_id)) => dec_state(b@) == Some(
                StateModel {
                    records: records@.map_values(|rec: RegistrationRecord| rec@),
                    projects: projects@.map_values(|p: Project| p@),
                    next_id,
                },
            ),
            None => dec_state(b@) is None,
        },
{
    if b.len() < 1 {
        return None;
    }
    if b[0] != SNAPSHOT_VERSION {
        return None;
    }
    proof {
        assert(b@.skip(1) == b@.skip(1));
    }
    match read_u64(b, 1) {
        None => None,
        Some((nr, p1)) => match read_record_list(b, p1, nr) {
            None => None,
            Some((records, p2)) => match read_u64(b, p2) {
                None => None,
                Some((np, p3)) => match read_project_list(b, p3, np) {
                    None => None,
                    Some((projects, p4)) => match read_u64(b, p4) {
                        None => None,
                        Some((next_id, p5)) => {
                            if p5 == b.len() {
                                proof {
                                    assert(b@.skip(p5 as int) =~= Seq::<u8>::empty());
                                }
                                Some((records, projects, next_id))
                            } else {
                                None
                            }
                        },
                    },
                },
            },
        },
    }
}

/// Relies on `char::from_u32`: every Unicode scalar value converts to the
/// character with that code point.
#[verifier::external_body]
fn char_from_u32(u: u32) -> (c: char)
    requires
        is_scalar_value(u),
    ensures
        c == u as char,
{
    char::from_u32(u).unwrap()
}

/// Relies on `String`'s `FromIterator<char>`: collecting characters yields
/// the string of exactly those characters.
#[verifier::external_body]
fn string_from_chars(chars: &Vec<char>) -> (s: String)
    ensures
        s@ == chars@,
{
    chars.iter().collect()
}

} // verus!
