//! Scanning text: white space, delimiter-separated fields and lines.
//!
//! Everything here is stated over `Seq<char>`, the view of a string, and
//! computed in one pass over the characters.

use vstd::prelude::*;

verus! {

/// Whether `c` is white space: the code points with the Unicode property
/// `White_Space`.
pub open spec fn is_whitespace(c: char) -> bool {
    let n = c as u32;
    ||| 0x09 <= n <= 0x0D
    ||| n == 0x20
    ||| n == 0x85
    ||| n == 0xA0
    ||| n == 0x1680
    ||| 0x2000 <= n <= 0x200A
    ||| n == 0x2028
    ||| n == 0x2029
    ||| n == 0x202F
    ||| n == 0x205F
    ||| n == 0x3000
}

/// Tells whether `c` is white space.
pub fn char_is_whitespace(c: char) -> (r: bool)
    ensures
        r == is_whitespace(c),
{
    let n: u32 = c as u32;
    (0x09 <= n && n <= 0x0D) || n == 0x20 || n == 0x85 || n == 0xA0 || n == 0x1680 || (0x2000 <= n
        && n <= 0x200A) || n == 0x2028 || n == 0x2029 || n == 0x202F || n == 0x205F || n == 0x3000
}

/// The characters that end a field.
#[derive(Clone, Copy, Debug, PartialEq, Eq, Structural)]
pub enum Delimiter {
    /// The path separator `/`.
    Slash,
    /// Any white space character.
    Whitespace,
    /// The line feed character.
    LineFeed,
}

/// Whether `c` is a delimiter of kind `d`.
pub open spec fn delimits(d: Delimiter, c: char) -> bool {
    match d {
        Delimiter::Slash => c == '/',
        Delimiter::Whitespace => is_whitespace(c),
        Delimiter::LineFeed => c == '\n',
    }
}

/// Tells whether `c` is a delimiter of kind `d`.
pub fn is_delimiter(d: Delimiter, c: char) -> (r: bool)
    ensures
        r == delimits(d, c),
{
    match d {
        Delimiter::Slash => c == '/',
        Delimiter::Whitespace => char_is_whitespace(c),
        Delimiter::LineFeed => c == '\n',
    }
}

/// Whether no character of `s` is a delimiter of kind `d`.
pub open spec fn free_of(s: Seq<char>, d: Delimiter) -> bool {
    forall|i: int| 0 <= i < s.len() ==> !delimits(d, #[trigger] s[i])
}

/// The length of the longest prefix of `s` that holds no delimiter.
pub open spec fn run_len(s: Seq<char>, d: Delimiter) -> nat
    decreases s.len(),
{
    if s.len() == 0 || delimits(d, s[0]) {
        0
    } else {
        1 + run_len(s.drop_first(), d)
    }
}

/// The fields of `s`: its maximal runs of characters that are not delimiters,
/// from left to right. No field is empty, so leading, trailing and repeated
/// delimiters change nothing.
pub open spec fn fields(s: Seq<char>, d: Delimiter) -> Seq<Seq<char>>
    decreases s.len(),
{
    if s.len() == 0 {
        Seq::empty()
    } else if delimits(d, s[0]) {
        fields(s.drop_first(), d)
    } else {
        let n = run_len(s, d) as int;
        proof {
            lemma_run_len_bounds(s, d);
        }
        seq![s.take(n)] + fields(s.skip(n), d)
    }
}

/// The pieces of `s` between delimiters of kind `d`, the empty ones too: one
/// more than there are delimiters.
pub open spec fn pieces(s: Seq<char>, d: Delimiter) -> Seq<Seq<char>>
    decreases s.len(),
{
    let n = run_len(s, d) as int;
    proof {
        lemma_run_len_bounds(s, d);
    }
    if n >= s.len() {
        seq![s]
    } else {
        seq![s.take(n)] + pieces(s.skip(n + 1), d)
    }
}

/// `parts` without the empty ones.
pub open spec fn without_empty(parts: Seq<Seq<char>>) -> Seq<Seq<char>>
    decreases parts.len(),
{
    if parts.len() == 0 {
        Seq::empty()
    } else if parts[0].len() == 0 {
        without_empty(parts.drop_first())
    } else {
        seq![parts[0]] + without_empty(parts.drop_first())
    }
}

/// The segments of a path: its fields between slashes.
pub open spec fn segments(path: Seq<char>) -> Seq<Seq<char>> {
    fields(path, Delimiter::Slash)
}

/// The words of a line: its fields between white space.
pub open spec fn words(line: Seq<char>) -> Seq<Seq<char>> {
    fields(line, Delimiter::Whitespace)
}

/// `l` without one carriage return at its end, if it has one.
pub open spec fn strip_cr(l: Seq<char>) -> Seq<char> {
    if l.len() > 0 && l.last() == '\r' {
        l.drop_last()
    } else {
        l
    }
}

/// The lines of `s`. A line ends at a line feed, and a carriage return just
/// before that line feed goes with it. What follows the last line feed is a
/// line of its own unless it is empty.
pub open spec fn lines(s: Seq<char>) -> Seq<Seq<char>>
    decreases s.len(),
{
    if s.len() == 0 {
        Seq::empty()
    } else {
        let n = run_len(s, Delimiter::LineFeed) as int;
        proof {
            lemma_run_len_bounds(s, Delimiter::LineFeed);
        }
        if n == s.len() {
            seq![s]
        } else {
            seq![strip_cr(s.take(n))] + lines(s.skip(n + 1))
        }
    }
}

/// Whether `s` holds nothing but white space.
pub open spec fn is_blank(s: Seq<char>) -> bool {
    forall|i: int| 0 <= i < s.len() ==> is_whitespace(#[trigger] s[i])
}

/// The views of the strings of `v`, in order.
pub open spec fn texts(v: Seq<String>) -> Seq<Seq<char>> {
    Seq::new(v.len(), |i: int| v[i]@)
}

/// The run that `run_len` measures lies within `s`, holds no delimiter, and
/// ends at a delimiter or at the end of `s`.
pub proof fn lemma_run_len_bounds(s: Seq<char>, d: Delimiter)
    ensures
        run_len(s, d) <= s.len(),
        free_of(s.take(run_len(s, d) as int), d),
        run_len(s, d) < s.len() ==> delimits(d, s[run_len(s, d) as int]),
        s.len() > 0 && !delimits(d, s[0]) ==> run_len(s, d) > 0,
    decreases s.len(),
{
    if s.len() == 0 || delimits(d, s[0]) {
    } else {
        let t = s.drop_first();
        lemma_run_len_bounds(t, d);
        let n = run_len(s, d) as int;
        assert forall|i: int| 0 <= i < n implies !delimits(d, #[trigger] s.take(n)[i]) by {
            if i > 0 {
                assert(s.take(n)[i] == t.take(n - 1)[i - 1]);
            }
        }
    }
}

/// A run that holds no delimiter and is followed by a delimiter, or by
/// nothing, is measured in full.
pub proof fn lemma_run_len_of_run(run: Seq<char>, rest: Seq<char>, d: Delimiter)
    requires
        free_of(run, d),
        rest.len() == 0 || delimits(d, rest[0]),
    ensures
        run_len(run + rest, d) == run.len(),
    decreases run.len(),
{
    let s = run + rest;
    if run.len() == 0 {
        assert(s =~= rest);
    } else {
        assert(s[0] == run[0]);
        assert(s.drop_first() =~= run.drop_first() + rest);
        assert forall|i: int| 0 <= i < run.drop_first().len() implies !delimits(
            d,
            #[trigger] run.drop_first()[i],
        ) by {
            assert(run.drop_first()[i] == run[i + 1]);
        }
        lemma_run_len_of_run(run.drop_first(), rest, d);
    }
}

/// The fields of a run followed by a delimiter, or by nothing, are the run,
/// if it is not empty, and then the fields of what follows.
pub proof fn lemma_fields_of_run(run: Seq<char>, rest: Seq<char>, d: Delimiter)
    requires
        free_of(run, d),
        rest.len() == 0 || delimits(d, rest[0]),
    ensures
        fields(run + rest, d) == if run.len() > 0 {
            seq![run] + fields(rest, d)
        } else {
            fields(rest, d)
        },
{
    let s = run + rest;
    if run.len() == 0 {
        assert(s =~= rest);
    } else {
        lemma_run_len_of_run(run, rest, d);
        assert(s[0] == run[0]);
        assert(s.take(run.len() as int) =~= run);
        assert(s.skip(run.len() as int) =~= rest);
    }
}

/// Every field is non-empty and holds no delimiter.
pub proof fn lemma_fields_are_runs(s: Seq<char>, d: Delimiter)
    ensures
        forall|k: int|
            0 <= k < fields(s, d).len() ==> (#[trigger] fields(s, d)[k]).len() > 0 && free_of(
                fields(s, d)[k],
                d,
            ),
    decreases s.len(),
{
    if s.len() == 0 {
        assert(fields(s, d).len() == 0);
    } else if delimits(d, s[0]) {
        lemma_fields_are_runs(s.drop_first(), d);
        assert(fields(s, d) == fields(s.drop_first(), d));
    } else {
        let n = run_len(s, d) as int;
        lemma_run_len_bounds(s, d);
        lemma_fields_are_runs(s.skip(n), d);
        let rest = fields(s.skip(n), d);
        let all = fields(s, d);
        assert(all == seq![s.take(n)] + rest);
        assert forall|k: int| 0 <= k < all.len() implies (#[trigger] all[k]).len() > 0 && free_of(
            all[k],
            d,
        ) by {
            if k > 0 {
                assert(all[k] == rest[k - 1]);
            } else {
                assert(all[0] == s.take(n));
            }
        }
    }
}

/// The fields are what is left of the pieces between delimiters when the
/// empty pieces are dropped.
pub proof fn lemma_fields_are_nonempty_pieces(s: Seq<char>, d: Delimiter)
    ensures
        fields(s, d) == without_empty(pieces(s, d)),
    decreases s.len(),
{
    let n = run_len(s, d) as int;
    lemma_run_len_bounds(s, d);
    if s.len() == 0 {
        assert(pieces(s, d) == seq![s]);
        assert(seq![s].drop_first() =~= Seq::<Seq<char>>::empty());
        assert(without_empty(seq![s].drop_first()) =~= Seq::<Seq<char>>::empty());
    } else if delimits(d, s[0]) {
        let rest = pieces(s.skip(1), d);
        assert(s.take(0) =~= Seq::<char>::empty());
        assert(s.skip(1) =~= s.drop_first());
        assert(pieces(s, d) == seq![s.take(0)] + rest);
        assert((seq![s.take(0)] + rest).drop_first() =~= rest);
        lemma_fields_are_nonempty_pieces(s.drop_first(), d);
    } else if n >= s.len() {
        assert(s.take(n) =~= s);
        assert(s.skip(n) =~= Seq::<char>::empty());
        assert(seq![s].drop_first() =~= Seq::<Seq<char>>::empty());
        assert(without_empty(seq![s].drop_first()) =~= Seq::<Seq<char>>::empty());
        assert(without_empty(seq![s]) =~= seq![s]);
        assert(fields(Seq::<char>::empty(), d) =~= Seq::<Seq<char>>::empty());
        assert(fields(s, d) =~= seq![s]);
    } else {
        let rest = pieces(s.skip(n + 1), d);
        let after = s.skip(n);
        assert(after[0] == s[n]);
        assert(after.drop_first() =~= s.skip(n + 1));
        assert(fields(after, d) == fields(s.skip(n + 1), d));
        lemma_fields_are_nonempty_pieces(s.skip(n + 1), d);
        assert((seq![s.take(n)] + rest).drop_first() =~= rest);
        assert((seq![s.take(n)] + rest)[0] == s.take(n));
    }
}

/// `String::push`: the string afterwards is the string before with `c`
/// appended.
#[verifier::external_body]
pub(crate) fn push_char(s: &mut String, c: char)
    ensures
        final(s)@ == old(s)@.push(c),
{
    s.push(c)
}

/// Splits `s` into its fields between delimiters of kind `d`.
pub fn split_fields(s: &str, d: Delimiter) -> (out: Vec<String>)
    ensures
        texts(out@) == fields(s@, d),
{
    let mut out: Vec<String> = Vec::new();
    let mut cur = String::new();
    proof {
        assert(cur@ + s@.skip(0) =~= s@);
        assert(texts(out@) + fields(s@, d) =~= fields(s@, d));
    }
    for c in it: s.chars()
        invariant
            it.seq() == s@,
            free_of(cur@, d),
            texts(out@) + fields(cur@ + s@.skip(it.index() as int), d) == fields(s@, d),
    {
        let ghost i = it.index() as int;
        let ghost rest = s@.skip(i);
        assert(rest[0] == c);
        assert(rest.drop_first() =~= s@.skip(i + 1));
        if is_delimiter(d, c) {
            proof {
                lemma_fields_of_run(cur@, rest, d);
                assert(Seq::<char>::empty() + s@.skip(i + 1) =~= s@.skip(i + 1));
            }
            if !cur.as_str().is_empty() {
                let ghost before = texts(out@);
                let ghost run = cur@;
                out.push(cur);
                cur = String::new();
                assert(texts(out@) =~= before + seq![run]);
                assert(texts(out@) + fields(s@.skip(i + 1), d) =~= before + (seq![run] + fields(
                    rest,
                    d,
                )));
            }
        } else {
            let ghost run = cur@;
            push_char(&mut cur, c);
            assert(cur@ + s@.skip(i + 1) =~= run + rest);
        }
    }
    proof {
        let rest = s@.skip(s@.len() as int);
        assert(rest =~= Seq::<char>::empty());
        lemma_fields_of_run(cur@, rest, d);
    }
    if !cur.as_str().is_empty() {
        let ghost before = texts(out@);
        let ghost run = cur@;
        out.push(cur);
        assert(texts(out@) =~= before + seq![run]);
        assert(fields(Seq::<char>::empty(), d) =~= Seq::<Seq<char>>::empty());
        assert(before + (seq![run] + Seq::<Seq<char>>::empty()) =~= before + seq![run]);
    } else {
        assert(texts(out@) + Seq::<Seq<char>>::empty() =~= texts(out@));
    }
    out
}

/// What a line under construction holds: the characters kept so far and, if
/// one is held back, a carriage return after them.
pub open spec fn with_held(kept: Seq<char>, held: bool) -> Seq<char> {
    if held {
        kept.push('\r')
    } else {
        kept
    }
}

/// Splits `s` into its lines.
pub fn split_lines(s: &str) -> (out: Vec<String>)
    ensures
        texts(out@) == lines(s@),
{
    let mut out: Vec<String> = Vec::new();
    let mut cur = String::new();
    let mut held = false;
    let ghost mut start: int = 0;
    proof {
        assert(s@.skip(0) =~= s@);
        assert(texts(out@) + lines(s@) =~= lines(s@));
        assert(s@.subrange(0, 0) =~= cur@);
    }
    for c in it: s.chars()
        invariant
            it.seq() == s@,
            0 <= start <= it.index(),
            with_held(cur@, held) == s@.subrange(start, it.index() as int),
            free_of(with_held(cur@, held), Delimiter::LineFeed),
            !held ==> strip_cr(cur@) == cur@,
            texts(out@) + lines(s@.skip(start)) == lines(s@),
    {
        let ghost i = it.index() as int;
        let ghost run = s@.subrange(start, i);
        assert(s@.subrange(start, i + 1) =~= run.push(c));
        if c == '\n' {
            proof {
                let from = s@.skip(start);
                let rest = s@.skip(i);
                assert(from =~= run + rest);
                assert(rest[0] == c);
                lemma_run_len_of_run(run, rest, Delimiter::LineFeed);
                assert(from.take(run.len() as int) =~= run);
                assert(from.skip(run.len() as int + 1) =~= s@.skip(i + 1));
                if held {
                    assert(run.drop_last() =~= cur@);
                }
                assert(strip_cr(run) == cur@);
                assert(lines(from) == seq![cur@] + lines(s@.skip(i + 1)));
            }
            let ghost before = texts(out@);
            let ghost line = cur@;
            out.push(cur);
            cur = String::new();
            held = false;
            proof {
                start = i + 1;
                assert(texts(out@) =~= before + seq![line]);
                assert(texts(out@) + lines(s@.skip(start)) =~= before + (seq![line] + lines(
                    s@.skip(i + 1),
                )));
                assert(s@.subrange(start, i + 1) =~= cur@);
            }
        } else {
            if held {
                push_char(&mut cur, '\r');
            }
            if c == '\r' {
                held = true;
            } else {
                push_char(&mut cur, c);
                held = false;
                assert(cur@.last() == c);
            }
            assert(with_held(cur@, held) =~= run.push(c));
            assert forall|j: int| 0 <= j < run.push(c).len() implies !delimits(
                Delimiter::LineFeed,
                #[trigger] run.push(c)[j],
            ) by {
                if j < run.len() {
                    assert(run.push(c)[j] == run[j]);
                }
            }
        }
    }
    if held {
        push_char(&mut cur, '\r');
    }
    proof {
        let from = s@.skip(start);
        assert(from =~= s@.subrange(start, s@.len() as int));
        assert(from == cur@);
        if from.len() > 0 {
            lemma_run_len_of_run(from, Seq::empty(), Delimiter::LineFeed);
            assert(from + Seq::<char>::empty() =~= from);
            assert(lines(from) == seq![from]);
        }
    }
    if !cur.as_str().is_empty() {
        let ghost before = texts(out@);
        let ghost line = cur@;
        out.push(cur);
        assert(texts(out@) =~= before + seq![line]);
    } else {
        assert(texts(out@) + Seq::<Seq<char>>::empty() =~= texts(out@));
    }
    out
}

/// Tells whether `s` holds nothing but white space.
pub fn blank(s: &str) -> (r: bool)
    ensures
        r == is_blank(s@),
{
    for c in it: s.chars()
        invariant
            it.seq() == s@,
            is_blank(s@.take(it.index() as int)),
    {
        let ghost i = it.index() as int;
        if !char_is_whitespace(c) {
            assert(!is_whitespace(s@[i]));
            return false;
        }
        assert forall|j: int| 0 <= j < s@.take(i + 1).len() implies is_whitespace(
            #[trigger] s@.take(i + 1)[j],
        ) by {
            if j < i {
                assert(s@.take(i + 1)[j] == s@.take(i)[j]);
            }
        }
    }
    assert(s@.take(s@.len() as int) =~= s@);
    true
}

} // verus!
