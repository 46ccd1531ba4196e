//! Reading the two client frames: the branch code out of the identification
//! frame, and the Base64 text out of the payload frame.
//!
//! Frames are handled as raw bytes. The delimiter `~` and the whitespace that
//! is trimmed are ASCII, so splitting and trimming bytes gives the same fields
//! as splitting and trimming the lossily decoded text.
use vstd::prelude::*;

verus! {

/// The field delimiter of both frames.
pub const TILDE: u8 = 0x7e;

/// A set of bytes that trimming removes from the ends of a field.
#[derive(Clone, Copy, Debug, PartialEq, Eq, Structural)]
pub enum ByteClass {
    /// Space, tab, line feed, form feed and carriage return.
    AsciiWhitespace,
    /// The delimiter `~`.
    Tilde,
}

pub open spec fn in_class(c: ByteClass, b: u8) -> bool {
    match c {
        ByteClass::AsciiWhitespace => b == 0x20 || b == 0x09 || b == 0x0a || b == 0x0c || b == 0x0d,
        ByteClass::Tilde => b == TILDE,
    }
}

/// `s` without the run of bytes of class `c` at its start.
pub open spec fn trim_start(s: Seq<u8>, c: ByteClass) -> Seq<u8>
    decreases s.len(),
{
    if s.len() > 0 && in_class(c, s[0]) {
        trim_start(s.drop_first(), c)
    } else {
        s
    }
}

/// `s` without the run of bytes of class `c` at its end.
pub open spec fn trim_end(s: Seq<u8>, c: ByteClass) -> Seq<u8>
    decreases s.len(),
{
    if s.len() > 0 && in_class(c, s.last()) {
        trim_end(s.drop_last(), c)
    } else {
        s
    }
}

/// `s` without the runs of bytes of class `c` at both ends.
pub open spec fn trim(s: Seq<u8>, c: ByteClass) -> Seq<u8> {
    trim_end(trim_start(s, c), c)
}

/// The fields of `s` between `~` delimiters, in order: `k` delimiters give
/// `k + 1` fields, some of them possibly empty.
pub open spec fn split_fields(s: Seq<u8>) -> Seq<Seq<u8>>
    decreases s.len(),
{
    if s.len() == 0 {
        seq![Seq::<u8>::empty()]
    } else {
        let rest = split_fields(s.drop_first());
        if s[0] == TILDE {
            seq![Seq::<u8>::empty()] + rest
        } else {
            rest.update(0, seq![s[0]] + rest[0])
        }
    }
}

/// The branch code that an identification frame carries: its second
/// `~`-separated field with surrounding ASCII whitespace trimmed, or `None`
/// when the frame holds no `~`.
pub open spec fn branch_code_of(frame: Seq<u8>) -> Option<Seq<u8>> {
    let fields = split_fields(frame);
    if fields.len() > 1 {
        Some(trim(fields[1], ByteClass::AsciiWhitespace))
    } else {
        None
    }
}

/// The Base64 text of a payload frame: the frame without the runs of `~` at
/// its ends.
pub open spec fn payload_text_of(frame: Seq<u8>) -> Seq<u8> {
    trim(frame, ByteClass::Tilde)
}

pub proof fn lemma_split_fields_nonempty(s: Seq<u8>)
    ensures
        split_fields(s).len() >= 1,
    decreases s.len(),
{
    if s.len() > 0 {
        lemma_split_fields_nonempty(s.drop_first());
    }
}

/// Without a delimiter, `s` is its only field.
pub proof fn lemma_split_without_tilde(s: Seq<u8>)
    requires
        forall|i: int| 0 <= i < s.len() ==> s[i] != TILDE,
    ensures
        split_fields(s) == seq![s],
    decreases s.len(),
{
    if s.len() > 0 {
        lemma_split_without_tilde(s.drop_first());
        assert(seq![s[0]] + s.drop_first() =~= s);
        assert(split_fields(s) =~= seq![s]);
    } else {
        assert(s =~= Seq::<u8>::empty());
    }
}

/// The first delimiter at `k` ends the first field.
pub proof fn lemma_split_at_first_tilde(s: Seq<u8>, k: int)
    requires
        0 <= k < s.len(),
        s[k] == TILDE,
        forall|i: int| 0 <= i < k ==> s[i] != TILDE,
    ensures
        split_fields(s) == seq![s.subrange(0, k)] + split_fields(s.subrange(k + 1, s.len() as int)),
    decreases k,
{
    if k == 0 {
        assert(s.drop_first() =~= s.subrange(1, s.len() as int));
        assert(s.subrange(0, 0) =~= Seq::<u8>::empty());
    } else {
        let t = s.drop_first();
        lemma_split_at_first_tilde(t, k - 1);
        assert(t.subrange(k, t.len() as int) =~= s.subrange(k + 1, s.len() as int));
        assert(seq![s[0]] + t.subrange(0, k - 1) =~= s.subrange(0, k));
        assert(split_fields(s) =~= seq![s.subrange(0, k)] + split_fields(
            s.subrange(k + 1, s.len() as int),
        ));
    }
}

/// Removing bytes of class `c` from the start leaves `trim_start` unchanged.
proof fn lemma_trim_start_skip(s: Seq<u8>, k: int, c: ByteClass)
    requires
        0 <= k <= s.len(),
        forall|i: int| 0 <= i < k ==> in_class(c, s[i]),
    ensures
        trim_start(s, c) == trim_start(s.subrange(k, s.len() as int), c),
    decreases k,
{
    if k == 0 {
        assert(s.subrange(0, s.len() as int) =~= s);
    } else {
        let t = s.drop_first();
        lemma_trim_start_skip(t, k - 1, c);
        assert(t.subrange(k - 1, t.len() as int) =~= s.subrange(k, s.len() as int));
    }
}

/// Removing bytes of class `c` from the end leaves `trim_end` unchanged.
proof fn lemma_trim_end_take(s: Seq<u8>, k: int, c: ByteClass)
    requires
        0 <= k <= s.len(),
        forall|i: int| k <= i < s.len() ==> in_class(c, s[i]),
    ensures
        trim_end(s, c) == trim_end(s.subrange(0, k), c),
    decreases s.len() - k,
{
    if k == s.len() {
        assert(s.subrange(0, k) =~= s);
    } else {
        let t = s.drop_last();
        lemma_trim_end_take(t, k, c);
        assert(t.subrange(0, k) =~= s.subrange(0, k));
    }
}

pub fn is_in_class(c: ByteClass, b: u8) -> (r: bool)
    ensures
        r == in_class(c, b),
{
    match c {
        ByteClass::AsciiWhitespace => b == 0x20 || b == 0x09 || b == 0x0a || b == 0x0c || b == 0x0d,
        ByteClass::Tilde => b == TILDE,
    }
}

/// The bounds of `s[lo..hi]` that is `s` trimmed of class `c` at both ends.
pub fn trim_bounds(s: &[u8], c: ByteClass) -> (r: (usize, usize))
    ensures
        r.0 <= r.1 <= s@.len(),
        r.0 == s@.len() - trim_start(s@, c).len(),
        s@.subrange(r.0 as int, r.1 as int) == trim(s@, c),
{
    let mut lo: usize = 0;
    while lo < s.len() && is_in_class(c, s[lo])
        invariant
            lo <= s@.len(),
            forall|i: int| 0 <= i < lo ==> in_class(c, s@[i]),
        decreases s@.len() - lo,
    {
        lo = lo + 1;
    }
    let mut hi: usize = s.len();
    while hi > lo && is_in_class(c, s[hi - 1])
        invariant
            lo <= hi <= s@.len(),
            forall|i: int| hi <= i < s@.len() ==> in_class(c, s@[i]),
        decreases hi,
    {
        hi = hi - 1;
    }
    proof {
        let t = s@.subrange(lo as int, s@.len() as int);
        lemma_trim_start_skip(s@, lo as int, c);
        assert(trim_start(t, c) == t);
        lemma_trim_end_take(t, (hi - lo) as int, c);
        let u = t.subrange(0, (hi - lo) as int);
        assert(u =~= s@.subrange(lo as int, hi as int));
        if u.len() > 0 {
            assert(u.last() == s@[hi - 1]);
        }
        assert(trim_end(u, c) == u);
    }
    (lo, hi)
}

/// A copy of `s[lo..hi]`.
pub fn copy_range(s: &[u8], lo: usize, hi: usize) -> (r: Vec<u8>)
    requires
        lo <= hi <= s@.len(),
    ensures
        r@ == s@.subrange(lo as int, hi as int),
{
    let mut out: Vec<u8> = Vec::new();
    let mut k: usize = lo;
    while k < hi
        invariant
            lo <= k <= hi <= s@.len(),
            out@ == s@.subrange(lo as int, k as int),
        decreases hi - k,
    {
        out.push(s[k]);
        k = k + 1;
        assert(out@ =~= s@.subrange(lo as int, k as int));
    }
    out
}

/// The index of the first `~` at or after `from`, or `s.len()` if there is none.
fn next_tilde(s: &[u8], from: usize) -> (r: usize)
    requires
        from <= s@.len(),
    ensures
        from <= r <= s@.len(),
        r < s@.len() ==> s@[r as int] == TILDE,
        forall|i: int| from <= i < r ==> s@[i] != TILDE,
{
    let mut k: usize = from;
    while k < s.len() && s[k] != TILDE
        invariant
            from <= k <= s@.len(),
            forall|i: int| from <= i < k ==> s@[i] != TILDE,
        decreases s@.len() - k,
    {
        k = k + 1;
    }
    k
}

/// The branch code of an identification frame, as `branch_code_of` says.
pub fn branch_code(frame: &[u8]) -> (r: Option<Vec<u8>>)
    ensures
        match r {
            Some(code) => branch_code_of(frame@) == Some(code@),
            None => branch_code_of(frame@) is None,
        },
{
    let first = next_tilde(frame, 0);
    if first == frame.len() {
        proof {
            lemma_split_without_tilde(frame@);
        }
        return None;
    }
    let end = next_tilde(frame, first + 1);
    proof {
        let s = frame@;
        let rest = s.subrange(first + 1, s.len() as int);
        lemma_split_at_first_tilde(s, first as int);
        if end < s.len() {
            lemma_split_at_first_tilde(rest, end - first - 1);
            assert(rest.subrange(0, end - first - 1) =~= s.subrange(first + 1, end as int));
        } else {
            lemma_split_without_tilde(rest);
            assert(rest =~= s.subrange(first + 1, end as int));
        }
        lemma_split_fields_nonempty(rest);
        lemma_split_fields_nonempty(rest.subrange(end - first, rest.len() as int));
    }
    let field = copy_range(frame, first + 1, end);
    let (lo, hi) = trim_bounds(field.as_slice(), ByteClass::AsciiWhitespace);
    Some(copy_range(field.as_slice(), lo, hi))
}

/// The Base64 text of a payload frame, as `payload_text_of` says.
pub fn payload_text(frame: &[u8]) -> (r: Vec<u8>)
    ensures
        r@ == payload_text_of(frame@),
{
    let (lo, hi) = trim_bounds(frame, ByteClass::Tilde);
    copy_range(frame, lo, hi)
}

} // verus!
