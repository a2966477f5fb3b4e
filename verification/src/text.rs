//! Splitting counter text into lines and tokens, and reading decimal numbers.
use vstd::prelude::*;

verus! {

/// What separates the pieces of a text.
#[derive(Clone, Copy, Debug, PartialEq, Eq, Structural)]
pub enum Delimiter {
    /// A line feed.
    Newline,
    /// A space, a tab or a carriage return.
    Blank,
    /// A colon.
    Colon,
}

impl Delimiter {
    /// Whether byte `b` is a delimiter of this kind.
    pub open spec fn matches(self, b: u8) -> bool {
        match self {
            Delimiter::Newline => b == 10,
            Delimiter::Blank => b == 32 || b == 9 || b == 13,
            Delimiter::Colon => b == 58,
        }
    }

    /// Executable form of [`Delimiter::matches`].
    pub fn is_match(self, b: u8) -> (r: bool)
        ensures
            r == self.matches(b),
    {
        match self {
            Delimiter::Newline => b == 10,
            Delimiter::Blank => b == 32 || b == 9 || b == 13,
            Delimiter::Colon => b == 58,
        }
    }
}

/// Length of the longest prefix of `s` that holds no delimiter.
pub open spec fn run_len(s: Seq<u8>, d: Delimiter) -> nat
    decreases s.len(),
{
    if s.len() == 0 || d.matches(s[0]) {
        0
    } else {
        1 + run_len(s.skip(1), d)
    }
}

/// The pieces of `s` between delimiters, in order. A text with `n` delimiters
/// has `n + 1` pieces, some of which may be empty.
pub open spec fn split(s: Seq<u8>, d: Delimiter) -> Seq<Seq<u8>>
    decreases s.len(),
{
    let k = run_len(s, d);
    if k >= s.len() {
        seq![s]
    } else {
        seq![s.take(k as int)] + split(s.skip(k as int + 1), d)
    }
}

/// The pieces of `ps` that are not empty, in order.
pub open spec fn non_empty(ps: Seq<Seq<u8>>) -> Seq<Seq<u8>>
    decreases ps.len(),
{
    if ps.len() == 0 {
        ps
    } else if ps.last().len() == 0 {
        non_empty(ps.drop_last())
    } else {
        non_empty(ps.drop_last()).push(ps.last())
    }
}

/// The lines of a text.
pub open spec fn lines(s: Seq<u8>) -> Seq<Seq<u8>> {
    split(s, Delimiter::Newline)
}

/// The tokens of a line: its maximal runs of bytes that are not blank.
pub open spec fn tokens(s: Seq<u8>) -> Seq<Seq<u8>> {
    non_empty(split(s, Delimiter::Blank))
}

/// The byte sequences that a vector of byte vectors holds.
pub open spec fn pieces(v: Seq<Vec<u8>>) -> Seq<Seq<u8>> {
    Seq::new(v.len(), |i: int| v[i]@)
}

/// A prefix of length `k` that is free of delimiters and ends at a delimiter or
/// at the end of `s` is the longest such prefix.
pub proof fn lemma_run_len(s: Seq<u8>, d: Delimiter, k: nat)
    requires
        k <= s.len(),
        forall|j: int| 0 <= j < k ==> !d.matches(#[trigger] s[j]),
        k == s.len() || d.matches(s[k as int]),
    ensures
        run_len(s, d) == k,
    decreases k,
{
    if k > 0 {
        let t = s.skip(1);
        assert forall|j: int| 0 <= j < k - 1 implies !d.matches(#[trigger] t[j]) by {
            assert(t[j] == s[j + 1]);
        }
        lemma_run_len(t, d, (k - 1) as nat);
    }
}

/// The pieces of `s` between delimiters of kind `d`, without the empty ones
/// where `skip_empty` is set.
pub open spec fn parts(s: Seq<u8>, d: Delimiter, skip_empty: bool) -> Seq<Seq<u8>> {
    if skip_empty {
        non_empty(split(s, d))
    } else {
        split(s, d)
    }
}

/// Splits `text` at each delimiter of kind `d`, and drops the empty pieces
/// where `skip_empty` is set.
pub fn split_bytes(text: &[u8], d: Delimiter, skip_empty: bool) -> (out: Vec<Vec<u8>>)
    ensures
        pieces(out@) == parts(text@, d, skip_empty),
{
    let mut out: Vec<Vec<u8>> = Vec::new();
    let mut start: usize = 0;
    let ghost mut seen: Seq<Seq<u8>> = Seq::empty();
    proof {
        assert(text@.skip(0) =~= text@);
        assert(seen + split(text@, d) =~= split(text@, d));
        assert(pieces(out@) =~= seen);
    }
    loop
        invariant
            start <= text.len(),
            seen + split(text@.skip(start as int), d) == split(text@, d),
            pieces(out@) == if skip_empty { non_empty(seen) } else { seen },
        decreases text.len() - start,
    {
        let mut piece: Vec<u8> = Vec::new();
        let mut end: usize = start;
        while end < text.len() && !d.is_match(text[end])
            invariant
                start <= end <= text.len(),
                piece@ == text@.subrange(start as int, end as int),
                forall|j: int| start <= j < end ==> !d.matches(#[trigger] text@[j]),
            decreases text.len() - end,
        {
            piece.push(text[end]);
            end += 1;
            assert(piece@ =~= text@.subrange(start as int, end as int));
        }
        let ghost rest = text@.skip(start as int);
        let ghost kept = pieces(out@);
        let ghost word = piece@;
        proof {
            assert forall|j: int| 0 <= j < end - start implies !d.matches(#[trigger] rest[j]) by {
                assert(rest[j] == text@[start + j]);
            }
            lemma_run_len(rest, d, (end - start) as nat);
            assert(word =~= rest.take(end - start));
            assert(seen.push(word).drop_last() =~= seen);
        }
        if !skip_empty || piece.len() > 0 {
            out.push(piece);
            assert(pieces(out@) =~= kept.push(word));
        }
        proof {
            if end == text.len() {
                assert(rest.take(end - start) =~= rest);
                assert(seen.push(word) =~= seen + seq![rest]);
            } else {
                assert(rest.skip(end - start + 1) =~= text@.skip(end + 1));
                assert(seen.push(word) + split(text@.skip(end + 1), d) =~= seen + (seq![
                    rest.take(end - start),
                ] + split(text@.skip(end + 1), d)));
            }
            seen = seen.push(word);
        }
        if end == text.len() {
            return out;
        }
        start = end + 1;
    }
}

/// Splits a text into its lines.
pub fn split_lines(text: &[u8]) -> (out: Vec<Vec<u8>>)
    ensures
        pieces(out@) == lines(text@),
{
    split_bytes(text, Delimiter::Newline, false)
}

/// Splits a line into its tokens.
pub fn tokenize(line: &[u8]) -> (out: Vec<Vec<u8>>)
    ensures
        pieces(out@) == tokens(line@),
{
    split_bytes(line, Delimiter::Blank, true)
}

/// Whether `b` is an ASCII decimal digit.
pub open spec fn is_digit(b: u8) -> bool {
    48 <= b <= 57
}

/// Whether every byte of `t` is a decimal digit.
pub open spec fn all_digits(t: Seq<u8>) -> bool {
    forall|i: int| 0 <= i < t.len() ==> is_digit(#[trigger] t[i])
}

/// The number that the digits `t` write in base ten.
pub open spec fn decimal(t: Seq<u8>) -> nat
    decreases t.len(),
{
    if t.len() == 0 {
        0
    } else {
        decimal(t.drop_last()) * 10 + (t.last() - 48) as nat
    }
}

/// The digits of a token: the token without its leading plus sign, if it has one.
pub open spec fn unsigned_part(t: Seq<u8>) -> Seq<u8> {
    if t.len() > 0 && t[0] == 43 {
        t.skip(1)
    } else {
        t
    }
}

/// Whether token `t` writes a counter: an optional plus sign, then one or more
/// decimal digits whose value fits the machine word.
pub open spec fn is_number(t: Seq<u8>) -> bool {
    let ds = unsigned_part(t);
    ds.len() > 0 && all_digits(ds) && decimal(ds) <= usize::MAX
}

/// The counter that token `t` writes.
pub open spec fn number_value(t: Seq<u8>) -> nat {
    decimal(unsigned_part(t))
}

/// A digit string is worth at least as much as each of its prefixes.
pub proof fn lemma_decimal_prefix(t: Seq<u8>, k: int)
    requires
        0 <= k <= t.len(),
        all_digits(t),
    ensures
        decimal(t.take(k)) <= decimal(t),
    decreases t.len() - k,
{
    if k == t.len() {
        assert(t.take(k) =~= t);
    } else {
        let u = t.drop_last();
        assert(u.take(k) =~= t.take(k));
        assert(is_digit(t[t.len() - 1]));
        assert forall|i: int| 0 <= i < u.len() implies is_digit(#[trigger] u[i]) by {
            assert(u[i] == t[i]);
        }
        lemma_decimal_prefix(u, k);
    }
}

/// Reads a token as a counter value.
pub fn parse_number(tok: &[u8]) -> (r: Option<usize>)
    ensures
        r.is_some() <==> is_number(tok@),
        r matches Some(v) ==> v == number_value(tok@),
{
    let first: usize = if tok.len() > 0 && tok[0] == 43 { 1 } else { 0 };
    let ghost ds = unsigned_part(tok@);
    assert(ds =~= tok@.skip(first as int));
    if first == tok.len() {
        return None;
    }
    let mut acc: usize = 0;
    let mut i: usize = first;
    while i < tok.len()
        invariant
            first <= i <= tok.len(),
            ds == tok@.skip(first as int),
            ds == unsigned_part(tok@),
            all_digits(ds.take(i - first)),
            acc == decimal(ds.take(i - first)),
        decreases tok.len() - i,
    {
        let b: u8 = tok[i];
        if b < 48 || b > 57 {
            assert(!is_digit(ds[i - first]));
            return None;
        }
        let digit: usize = (b - 48) as usize;
        let ghost next = ds.take(i - first + 1);
        proof {
            assert(next.drop_last() =~= ds.take(i - first));
            assert(next.last() == b);
            assert forall|j: int| 0 <= j < next.len() implies is_digit(#[trigger] next[j]) by {
                if j < i - first {
                    assert(next[j] == ds.take(i - first)[j]);
                }
            }
        }
        if acc > (usize::MAX - digit) / 10 {
            proof {
                assert(decimal(next) > usize::MAX);
                if all_digits(ds) {
                    lemma_decimal_prefix(ds, i - first + 1);
                }
            }
            return None;
        }
        acc = acc * 10 + digit;
        i += 1;
    }
    assert(ds.take(i - first) =~= ds);
    Some(acc)
}

} // verus!
