//! Character-level text handling used by the request parser and the
//! response templates: whitespace tokens, splitting on a delimiter,
//! line ends, trimming and decimal numbers.
use vstd::prelude::*;

verus! {

// ---------------------------------------------------------------------------
// Building blocks
// ---------------------------------------------------------------------------

/// Appends one character to a string (`String::push`).
/// Claimed: the new contents are the old contents followed by `c`.
#[verifier::external_body]
pub(crate) fn push_char(s: &mut String, c: char)
    ensures
        final(s)@ == old(s)@.push(c),
{
    s.push(c);
}

/// The characters of a string slice, in order.
pub fn chars_of(s: &str) -> (v: Vec<char>)
    ensures
        v@ == s@,
{
    broadcast use vstd::string::group_string_axioms;

    let mut v: Vec<char> = Vec::new();
    for c in it: s.chars()
        invariant
            v@ == it.seq().take(it.index() as int),
    {
        v.push(c);
        assert(v@ =~= it.seq().take(it.index() + 1));
    }
    assert(v@ =~= s@);
    v
}

/// A string made of the given characters, in order.
pub fn string_of(cs: &Vec<char>, from: usize, to: usize) -> (r: String)
    requires
        from <= to <= cs@.len(),
    ensures
        r@ == cs@.subrange(from as int, to as int),
{
    let mut r = String::new();
    let mut i: usize = from;
    while i < to
        invariant
            from <= i <= to <= cs@.len(),
            r@ == cs@.subrange(from as int, i as int),
        decreases to - i,
    {
        push_char(&mut r, cs[i]);
        i = i + 1;
        assert(r@ =~= cs@.subrange(from as int, i as int));
    }
    r
}

/// Whether two texts are the same sequence of characters.
pub fn same_text(a: &str, b: &str) -> (r: bool)
    ensures
        r == (a@ == b@),
{
    let x = a.to_owned();
    let y = b.to_owned();
    x == y
}

/// Whether `s` begins with `prefix`.
pub fn has_prefix(s: &str, prefix: &str) -> (r: bool)
    ensures
        r == is_prefix(prefix@, s@),
{
    let sc = chars_of(s);
    let pc = chars_of(prefix);
    if pc.len() > sc.len() {
        return false;
    }
    let mut i: usize = 0;
    while i < pc.len()
        invariant
            pc@ == prefix@,
            sc@ == s@,
            pc@.len() <= sc@.len(),
            i <= pc@.len(),
            forall|j: int| 0 <= j < i ==> pc@[j] == sc@[j],
        decreases pc.len() - i,
    {
        if pc[i] != sc[i] {
            return false;
        }
        i = i + 1;
    }
    assert(s@.take(prefix@.len() as int) =~= prefix@);
    true
}

/// `p` is a prefix of `s`.
pub open spec fn is_prefix(p: Seq<char>, s: Seq<char>) -> bool {
    p.len() <= s.len() && s.take(p.len() as int) == p
}

/// `s` without its leading `prefix`, if it starts with it (`str::strip_prefix`).
pub fn strip_prefix(s: &str, prefix: &str) -> (r: Option<String>)
    ensures
        match r {
            Some(rest) => is_prefix(prefix@, s@) && rest@ == s@.skip(prefix@.len() as int),
            None => !is_prefix(prefix@, s@),
        },
{
    if has_prefix(s, prefix) {
        let cs = chars_of(s);
        let n = prefix.unicode_len();
        let rest = string_of(&cs, n, cs.len());
        assert(rest@ =~= s@.skip(prefix@.len() as int));
        Some(rest)
    } else {
        None
    }
}

// ---------------------------------------------------------------------------
// Whitespace
// ---------------------------------------------------------------------------

/// The characters with the Unicode property White_Space, which is what
/// `char::is_whitespace` tests.
pub open spec fn is_white_space(c: char) -> bool {
    ||| '\u{9}' <= c <= '\u{d}'
    ||| c == ' '
    ||| c == '\u{85}'
    ||| c == '\u{a0}'
    ||| c == '\u{1680}'
    ||| '\u{2000}' <= c <= '\u{200a}'
    ||| c == '\u{2028}'
    ||| c == '\u{2029}'
    ||| c == '\u{202f}'
    ||| c == '\u{205f}'
    ||| c == '\u{3000}'
}

/// Whether `c` is a whitespace character.
pub fn is_whitespace(c: char) -> (r: bool)
    ensures
        r == is_white_space(c),
{
    ('\u{9}' <= c && c <= '\u{d}') || c == ' ' || c == '\u{85}' || c == '\u{a0}' || c
        == '\u{1680}' || ('\u{2000}' <= c && c <= '\u{200a}') || c == '\u{2028}' || c
        == '\u{2029}' || c == '\u{202f}' || c == '\u{205f}' || c == '\u{3000}'
}

/// The number of characters at the start of `s` before the first whitespace.
pub open spec fn word_len(s: Seq<char>) -> nat
    decreases s.len(),
{
    if s.len() == 0 || is_white_space(s[0]) {
        0
    } else {
        1 + word_len(s.drop_first())
    }
}

/// The maximal runs of non-whitespace characters of `s`, in order
/// (what `str::split_whitespace` yields).
pub open spec fn tokens(s: Seq<char>) -> Seq<Seq<char>>
    decreases s.len(),
{
    if s.len() == 0 {
        seq![]
    } else if is_white_space(s[0]) {
        tokens(s.drop_first())
    } else {
        proof {
            lemma_word_len_bound(s);
        }
        let n = word_len(s);
        seq![s.take(n as int)] + tokens(s.skip(n as int))
    }
}

pub proof fn lemma_word_len_bound(s: Seq<char>)
    ensures
        word_len(s) <= s.len(),
        forall|i: int| 0 <= i < word_len(s) ==> !is_white_space(#[trigger] s[i]),
        word_len(s) < s.len() ==> is_white_space(s[word_len(s) as int]),
    decreases s.len(),
{
    if s.len() > 0 && !is_white_space(s[0]) {
        lemma_word_len_bound(s.drop_first());
        assert forall|i: int| 0 <= i < word_len(s) implies !is_white_space(#[trigger] s[i]) by {
            if i > 0 {
                assert(s[i] == s.drop_first()[i - 1]);
            }
        }
    }
}

/// A word followed by more text: its length adds to the word length of the rest.
proof fn lemma_word_len_append(w: Seq<char>, rest: Seq<char>)
    requires
        forall|i: int| 0 <= i < w.len() ==> !is_white_space(#[trigger] w[i]),
    ensures
        word_len(w + rest) == w.len() + word_len(rest),
    decreases w.len(),
{
    if w.len() > 0 {
        assert((w + rest).drop_first() =~= w.drop_first() + rest);
        assert((w + rest)[0] == w[0]);
        lemma_word_len_append(w.drop_first(), rest);
    } else {
        assert(w + rest =~= rest);
    }
}

/// A pending word `w` in front of whitespace ends there as a token.
proof fn lemma_tokens_word_then_space(w: Seq<char>, rest: Seq<char>)
    requires
        w.len() > 0,
        forall|i: int| 0 <= i < w.len() ==> !is_white_space(#[trigger] w[i]),
        rest.len() > 0,
        is_white_space(rest[0]),
    ensures
        tokens(w + rest) == seq![w] + tokens(rest.drop_first()),
{
    let s = w + rest;
    lemma_word_len_append(w, rest);
    assert(word_len(rest) == 0);
    assert(s[0] == w[0]);
    assert(s.take(w.len() as int) =~= w);
    assert(s.skip(w.len() as int) =~= rest);
    assert(tokens(rest) == tokens(rest.drop_first()));
}

/// A pending word at the end of the text is the last token.
proof fn lemma_tokens_word_at_end(w: Seq<char>)
    requires
        forall|i: int| 0 <= i < w.len() ==> !is_white_space(#[trigger] w[i]),
    ensures
        tokens(w) == (if w.len() == 0 {
            Seq::<Seq<char>>::empty()
        } else {
            seq![w]
        }),
{
    if w.len() > 0 {
        lemma_word_len_append(w, Seq::<char>::empty());
        assert(w + Seq::<char>::empty() =~= w);
        assert(!is_white_space(w[0]));
        assert(w.take(w.len() as int) =~= w);
        assert(w.skip(w.len() as int) =~= Seq::<char>::empty());
        assert(tokens(Seq::<char>::empty()) =~= Seq::<Seq<char>>::empty());
        assert(word_len(w) == w.len());
        assert(tokens(w) == seq![w.take(w.len() as int)] + tokens(w.skip(w.len() as int)));
        assert(seq![w] + Seq::<Seq<char>>::empty() =~= seq![w]);
    } else {
        assert(tokens(w) =~= Seq::<Seq<char>>::empty());
    }
}

/// The whitespace-separated tokens of `s`, in order (`str::split_whitespace`).
pub fn split_whitespace(s: &str) -> (r: Vec<String>)
    ensures
        r.deep_view() == tokens(s@),
{
    let cs = chars_of(s);
    let n = cs.len();
    let mut r: Vec<String> = Vec::new();
    let mut start: usize = 0;
    let mut i: usize = 0;
    assert(cs@.subrange(0, n as int) =~= s@);
    assert(r.deep_view() + tokens(s@) =~= tokens(s@));
    while i < n
        invariant
            n == cs@.len(),
            cs@ == s@,
            start <= i <= n,
            forall|j: int| start <= j < i ==> !is_white_space(#[trigger] cs@[j]),
            tokens(s@) == r.deep_view() + tokens(cs@.subrange(start as int, n as int)),
        decreases n - i,
    {
        let c = cs[i];
        if is_whitespace(c) {
            let ghost w = cs@.subrange(start as int, i as int);
            let ghost rest = cs@.subrange(i as int, n as int);
            assert(cs@.subrange(start as int, n as int) =~= w + rest);
            assert(rest.drop_first() =~= cs@.subrange(i + 1, n as int));
            if start < i {
                proof {
                    lemma_tokens_word_then_space(w, rest);
                }
                let t = string_of(&cs, start, i);
                let ghost before = r.deep_view();
                r.push(t);
                assert(r.deep_view() =~= before.push(w));
                assert(before.push(w) + tokens(rest.drop_first()) =~= before + (seq![w]
                    + tokens(rest.drop_first())));
            } else {
                assert(w + rest =~= rest);
            }
            start = i + 1;
        }
        i = i + 1;
    }
    let ghost w = cs@.subrange(start as int, n as int);
    proof {
        lemma_tokens_word_at_end(w);
    }
    if start < n {
        let t = string_of(&cs, start, n);
        let ghost before = r.deep_view();
        r.push(t);
        assert(r.deep_view() =~= before.push(w));
        assert(before + seq![w] =~= before.push(w));
    } else {
        assert(r.deep_view() + Seq::<Seq<char>>::empty() =~= r.deep_view());
    }
    r
}


/// A non-empty run of characters none of which is whitespace.
pub open spec fn is_word(t: Seq<char>) -> bool {
    t.len() > 0 && forall|i: int| 0 <= i < t.len() ==> !is_white_space(#[trigger] t[i])
}

/// Every token is a non-empty run of characters none of which is whitespace.
pub proof fn lemma_tokens_are_words(s: Seq<char>)
    ensures
        forall|k: int| 0 <= k < tokens(s).len() ==> is_word(#[trigger] tokens(s)[k]),
    decreases s.len(),
{
    if s.len() == 0 {
    } else if is_white_space(s[0]) {
        lemma_tokens_are_words(s.drop_first());
        assert(tokens(s) == tokens(s.drop_first()));
    } else {
        lemma_word_len_bound(s);
        let n = word_len(s);
        lemma_tokens_are_words(s.skip(n as int));
        let t = tokens(s);
        assert forall|k: int| 0 <= k < t.len() implies is_word(#[trigger] t[k]) by {
            if k == 0 {
                assert(t[0] == s.take(n as int));
                assert forall|i: int| 0 <= i < t[k].len() implies !is_white_space(
                    #[trigger] t[k][i],
                ) by {
                    assert(t[k][i] == s[i]);
                }
            } else {
                assert(t[k] == tokens(s.skip(n as int))[k - 1]);
            }
        }
    }
}

/// The pieces of `s` between whitespace characters, empty pieces included
/// (`str::split(char::is_whitespace)`).
pub open spec fn split_at_white_space(s: Seq<char>) -> Seq<Seq<char>>
    decreases s.len(),
{
    proof {
        lemma_word_len_bound(s);
    }
    let n = word_len(s);
    if n >= s.len() {
        seq![s]
    } else {
        seq![s.take(n as int)] + split_at_white_space(s.skip(n + 1int))
    }
}

/// The non-empty pieces, in order.
pub open spec fn non_empty(parts: Seq<Seq<char>>) -> Seq<Seq<char>>
    decreases parts.len(),
{
    if parts.len() == 0 {
        seq![]
    } else if parts[0].len() == 0 {
        non_empty(parts.drop_first())
    } else {
        seq![parts[0]] + non_empty(parts.drop_first())
    }
}

/// The tokens are what `split_whitespace` documents: the pieces between
/// whitespace characters, with the empty ones left out. No token is dropped,
/// merged or split.
pub proof fn lemma_tokens_are_non_empty_pieces(s: Seq<char>)
    ensures
        tokens(s) == non_empty(split_at_white_space(s)),
    decreases s.len(),
{
    lemma_word_len_bound(s);
    let n = word_len(s);
    if s.len() == 0 {
        assert(non_empty(seq![s]) == non_empty(seq![s].drop_first()));
        assert(seq![s].drop_first() =~= Seq::<Seq<char>>::empty());
    } else if is_white_space(s[0]) {
        let rest = s.skip(1);
        lemma_tokens_are_non_empty_pieces(rest);
        let parts = seq![s.take(0)] + split_at_white_space(rest);
        assert(split_at_white_space(s) == parts);
        assert(parts.drop_first() =~= split_at_white_space(rest));
        assert(rest =~= s.drop_first());
        assert(parts[0].len() == 0);
        assert(non_empty(parts) == non_empty(parts.drop_first()));
        assert(tokens(s) == tokens(s.drop_first()));
    } else if n >= s.len() {
        let parts = seq![s];
        assert(split_at_white_space(s) == parts);
        assert(parts.drop_first() =~= Seq::<Seq<char>>::empty());
        assert(s.take(n as int) =~= s);
        assert(s.skip(n as int) =~= Seq::<char>::empty());
        assert(tokens(Seq::<char>::empty()) =~= Seq::<Seq<char>>::empty());
        assert(seq![s] + Seq::<Seq<char>>::empty() =~= seq![s]);
        assert(non_empty(parts) == seq![parts[0]] + non_empty(parts.drop_first()));
        assert(non_empty(Seq::<Seq<char>>::empty()) =~= Seq::<Seq<char>>::empty());
    } else {
        let rest = s.skip(n + 1int);
        lemma_tokens_are_non_empty_pieces(rest);
        let parts = seq![s.take(n as int)] + split_at_white_space(rest);
        assert(split_at_white_space(s) == parts);
        assert(parts.drop_first() =~= split_at_white_space(rest));
        assert(parts[0] == s.take(n as int));
        let after = s.skip(n as int);
        assert(after[0] == s[n as int]);
        assert(after.drop_first() =~= rest);
        assert(tokens(after) == tokens(after.drop_first()));
        assert(parts[0].len() > 0);
        assert(non_empty(parts) == seq![parts[0]] + non_empty(parts.drop_first()));
        assert(tokens(s) == seq![s.take(n as int)] + tokens(after));
    }
}

// ---------------------------------------------------------------------------
// Splitting on a delimiter
// ---------------------------------------------------------------------------

/// The number of characters at the start of `s` before the first `d`.
pub open spec fn seg_len(s: Seq<char>, d: char) -> nat
    decreases s.len(),
{
    if s.len() == 0 || s[0] == d {
        0
    } else {
        1 + seg_len(s.drop_first(), d)
    }
}

pub proof fn lemma_seg_len_bound(s: Seq<char>, d: char)
    ensures
        seg_len(s, d) <= s.len(),
        forall|i: int| 0 <= i < seg_len(s, d) ==> #[trigger] s[i] != d,
        seg_len(s, d) < s.len() ==> s[seg_len(s, d) as int] == d,
    decreases s.len(),
{
    if s.len() > 0 && s[0] != d {
        lemma_seg_len_bound(s.drop_first(), d);
        assert forall|i: int| 0 <= i < seg_len(s, d) implies #[trigger] s[i] != d by {
            if i > 0 {
                assert(s[i] == s.drop_first()[i - 1]);
            }
        }
    }
}

/// A prefix free of `d` adds its length to the segment length of the rest.
proof fn lemma_seg_len_append(w: Seq<char>, rest: Seq<char>, d: char)
    requires
        forall|i: int| 0 <= i < w.len() ==> #[trigger] w[i] != d,
    ensures
        seg_len(w + rest, d) == w.len() + seg_len(rest, d),
    decreases w.len(),
{
    if w.len() > 0 {
        assert((w + rest).drop_first() =~= w.drop_first() + rest);
        assert((w + rest)[0] == w[0]);
        lemma_seg_len_append(w.drop_first(), rest, d);
    } else {
        assert(w + rest =~= rest);
    }
}

/// The pieces of `s` between occurrences of `d`, in order (`str::split`
/// with a character): one more piece than there are `d`s, possibly empty.
pub open spec fn split_on(s: Seq<char>, d: char) -> Seq<Seq<char>>
    decreases s.len(),
{
    proof {
        lemma_seg_len_bound(s, d);
    }
    let n = seg_len(s, d);
    if n >= s.len() {
        seq![s]
    } else {
        seq![s.take(n as int)] + split_on(s.skip(n + 1int), d)
    }
}

/// The pieces joined back together with `d` between them.
pub open spec fn join_with(parts: Seq<Seq<char>>, d: char) -> Seq<char>
    decreases parts.len(),
{
    if parts.len() == 0 {
        seq![]
    } else if parts.len() == 1 {
        parts[0]
    } else {
        parts[0] + seq![d] + join_with(parts.drop_first(), d)
    }
}

/// Splitting on `d` loses nothing: joining the pieces with `d` gives the
/// text back, and no piece contains `d`.
pub proof fn lemma_split_join(s: Seq<char>, d: char)
    ensures
        split_on(s, d).len() >= 1,
        join_with(split_on(s, d), d) == s,
        forall|k: int, i: int|
            0 <= k < split_on(s, d).len() && 0 <= i < split_on(s, d)[k].len() ==> #[trigger] split_on(
                s,
                d,
            )[k][i] != d,
    decreases s.len(),
{
    lemma_seg_len_bound(s, d);
    let n = seg_len(s, d);
    let p = split_on(s, d);
    if n >= s.len() {
        assert forall|k: int, i: int| 0 <= k < p.len() && 0 <= i < p[k].len() implies #[trigger] p[k][i]
            != d by {
            assert(p[k] == s);
        }
    } else {
        let rest = s.skip(n + 1int);
        lemma_split_join(rest, d);
        let q = split_on(rest, d);
        assert(p.drop_first() =~= q);
        assert(join_with(p, d) == p[0] + seq![d] + join_with(q, d));
        assert(s =~= s.take(n as int) + seq![d] + rest);
        assert forall|k: int, i: int| 0 <= k < p.len() && 0 <= i < p[k].len() implies #[trigger] p[k][i]
            != d by {
            if k == 0 {
                assert(p[0][i] == s[i]);
            } else {
                assert(p[k] == q[k - 1]);
            }
        }
    }
}

/// The pieces of `s` between occurrences of `d` (`str::split` with a character).
pub fn split_char(s: &str, d: char) -> (r: Vec<String>)
    ensures
        r.deep_view() == split_on(s@, d),
{
    let cs = chars_of(s);
    let n = cs.len();
    let mut r: Vec<String> = Vec::new();
    let mut start: usize = 0;
    let mut i: usize = 0;
    assert(cs@.subrange(0, n as int) =~= s@);
    assert(r.deep_view() + split_on(s@, d) =~= split_on(s@, d));
    while i < n
        invariant
            n == cs@.len(),
            cs@ == s@,
            start <= i <= n,
            forall|j: int| start <= j < i ==> #[trigger] cs@[j] != d,
            split_on(s@, d) == r.deep_view() + split_on(cs@.subrange(start as int, n as int), d),
        decreases n - i,
    {
        if cs[i] == d {
            let ghost w = cs@.subrange(start as int, i as int);
            let ghost rest = cs@.subrange(i as int, n as int);
            let ghost whole = cs@.subrange(start as int, n as int);
            proof {
                assert(whole =~= w + rest);
                lemma_seg_len_append(w, rest, d);
                assert(seg_len(rest, d) == 0);
                assert(whole.take(w.len() as int) =~= w);
                assert(whole.skip(w.len() + 1int) =~= cs@.subrange(i + 1, n as int));
                assert(split_on(whole, d) == seq![w] + split_on(cs@.subrange(i + 1, n as int), d));
            }
            let t = string_of(&cs, start, i);
            let ghost before = r.deep_view();
            r.push(t);
            assert(r.deep_view() =~= before.push(w));
            assert(before.push(w) + split_on(cs@.subrange(i + 1, n as int), d) =~= before + (seq![w]
                + split_on(cs@.subrange(i + 1, n as int), d)));
            start = i + 1;
        }
        i = i + 1;
    }
    let ghost w = cs@.subrange(start as int, n as int);
    proof {
        lemma_seg_len_append(w, Seq::<char>::empty(), d);
        assert(w + Seq::<char>::empty() =~= w);
        assert(split_on(w, d) == seq![w]);
    }
    let t = string_of(&cs, start, n);
    let ghost before = r.deep_view();
    r.push(t);
    assert(r.deep_view() =~= before.push(w));
    assert(before + seq![w] =~= before.push(w));
    r
}

// ---------------------------------------------------------------------------
// Lines
// ---------------------------------------------------------------------------

/// The first line of `s` without its line ending, as `str::lines` yields
/// it; the empty text when `s` is empty.
pub open spec fn first_line(s: Seq<char>) -> Seq<char> {
    let n = seg_len(s, '\n');
    let l = s.take(n as int);
    if n < s.len() && l.len() > 0 && l.last() == '\r' {
        l.drop_last()
    } else {
        l
    }
}

/// The first line of `s`, without its line ending.
pub fn first_line_of(s: &str) -> (r: String)
    ensures
        r@ == first_line(s@),
{
    let cs = chars_of(s);
    let n = cs.len();
    let mut i: usize = 0;
    while i < n && cs[i] != '\n'
        invariant
            n == cs@.len(),
            cs@ == s@,
            i <= n,
            forall|j: int| 0 <= j < i ==> #[trigger] cs@[j] != '\n',
        decreases n - i,
    {
        i = i + 1;
    }
    proof {
        let w = s@.take(i as int);
        let rest = s@.skip(i as int);
        assert(s@ =~= w + rest);
        lemma_seg_len_append(w, rest, '\n');
        if i < n {
            assert(rest[0] == '\n');
        } else {
            assert(rest.len() == 0);
        }
        assert(seg_len(s@, '\n') == i);
    }
    if i < n && i > 0 && cs[i - 1] == '\r' {
        string_of(&cs, 0, i - 1)
    } else {
        string_of(&cs, 0, i)
    }
}

/// Whether a line read from a connection ends the header block of a request:
/// it is an empty line ended by CRLF or by LF alone.
pub fn ends_header_block(line: &str) -> (r: bool)
    ensures
        r == (line@ =~= seq!['\r', '\n'] || line@ =~= seq!['\n']),
{
    let cs = chars_of(line);
    if cs.len() == 1 {
        cs[0] == '\n'
    } else if cs.len() == 2 {
        cs[0] == '\r' && cs[1] == '\n'
    } else {
        false
    }
}

/// `s` with every trailing CRLF removed (`str::trim_end_matches("\r\n")`).
pub open spec fn trim_line_ends(s: Seq<char>) -> Seq<char>
    decreases s.len(),
{
    if s.len() >= 2 && s[s.len() - 2] == '\r' && s[s.len() - 1] == '\n' {
        trim_line_ends(s.take(s.len() - 2))
    } else {
        s
    }
}

/// `s` with every trailing CRLF removed.
#[verifier::spinoff_prover]
pub fn trim_crlf(s: &str) -> (r: String)
    ensures
        r@ == trim_line_ends(s@),
{
    let cs = chars_of(s);
    let mut i: usize = cs.len();
    assert(s@.take(i as int) =~= s@);
    while i >= 2 && cs[i - 2] == '\r' && cs[i - 1] == '\n'
        invariant
            cs@ == s@,
            i <= cs@.len(),
            trim_line_ends(s@) == trim_line_ends(s@.take(i as int)),
        decreases i,
    {
        let ghost t = s@.take(i as int);
        assert(t[t.len() - 2] == '\r' && t[t.len() - 1] == '\n');
        assert(t.take(i - 2) =~= s@.take(i - 2));
        assert(trim_line_ends(t) == trim_line_ends(t.take(t.len() - 2)));
        i = i - 2;
    }
    string_of(&cs, 0, i)
}

/// `s` with trailing whitespace removed (`str::trim_end`).
pub open spec fn trim_end_white_space(s: Seq<char>) -> Seq<char>
    decreases s.len(),
{
    if s.len() > 0 && is_white_space(s.last()) {
        trim_end_white_space(s.drop_last())
    } else {
        s
    }
}

/// `s` with trailing whitespace removed.
pub fn trim_end(s: &str) -> (r: String)
    ensures
        r@ == trim_end_white_space(s@),
{
    let cs = chars_of(s);
    let mut i: usize = cs.len();
    assert(s@.take(i as int) =~= s@);
    while i >= 1 && is_whitespace(cs[i - 1])
        invariant
            cs@ == s@,
            i <= cs@.len(),
            trim_end_white_space(s@) == trim_end_white_space(s@.take(i as int)),
        decreases i,
    {
        assert(s@.take(i as int).drop_last() =~= s@.take(i - 1));
        i = i - 1;
    }
    string_of(&cs, 0, i)
}

// ---------------------------------------------------------------------------
// Header lines and case
// ---------------------------------------------------------------------------

/// A colon followed by a space starts at index `i` of `s`.
pub open spec fn colon_space_at(s: Seq<char>, i: int) -> bool {
    0 <= i && i + 1 < s.len() && s[i] == ':' && s[i + 1] == ' '
}

/// `i` is the first index at which `": "` starts in `s`.
pub open spec fn first_colon_space(s: Seq<char>, i: int) -> bool {
    colon_space_at(s, i) && forall|j: int| 0 <= j < i ==> !colon_space_at(s, j)
}

/// The text before and after the first `": "` of `s`, if there is one
/// (`str::split_once(": ")`).
pub open spec fn split_at_colon_space(s: Seq<char>) -> Option<(Seq<char>, Seq<char>)> {
    if exists|i: int| colon_space_at(s, i) {
        let i = choose|i: int| first_colon_space(s, i);
        Some((s.take(i), s.skip(i + 2)))
    } else {
        None
    }
}

/// Splits a header line at its first `": "` into name and value.
pub fn split_header_line(line: &str) -> (r: Option<(String, String)>)
    ensures
        match split_at_colon_space(line@) {
            Some((k, v)) => r matches Some((name, value)) && name@ == k && value@ == v,
            None => r is None,
        },
{
    let cs = chars_of(line);
    let n = cs.len();
    let mut i: usize = 0;
    while n > 0 && i < n - 1
        invariant
            n == cs@.len(),
            cs@ == line@,
            i <= n,
            forall|j: int| 0 <= j < i ==> !colon_space_at(line@, j),
        decreases n - i,
    {
        if cs[i] == ':' && cs[i + 1] == ' ' {
            proof {
                assert(colon_space_at(line@, i as int));
                assert(first_colon_space(line@, i as int));
                let c = choose|c: int| first_colon_space(line@, c);
                assert(first_colon_space(line@, c));
                if c < i {
                } else if c > i {
                    assert(!colon_space_at(line@, i as int));
                }
                assert(c == i);
            }
            let name = string_of(&cs, 0, i);
            let value = string_of(&cs, i + 2, n);
            assert(value@ =~= line@.skip(i + 2));
            assert(name@ =~= line@.take(i as int));
            return Some((name, value));
        }
        i = i + 1;
    }
    assert forall|j: int| !colon_space_at(line@, j) by {
        if 0 <= j < i {
        }
    }
    None
}

/// The lowercase form of a text, as `str::to_lowercase` computes it under
/// the Unicode case mapping.
pub uninterp spec fn lowercase(s: Seq<char>) -> Seq<char>;

/// `str::to_lowercase`.
/// Claimed: the result is `lowercase` of the argument, and nothing more.
#[verifier::external_body]
pub(crate) fn to_lowercase(s: &str) -> (r: String)
    ensures
        r@ == lowercase(s@),
{
    s.to_lowercase()
}

/// `str::trim_end` removes exactly the trailing whitespace: the result is a
/// prefix of `s` that is empty or ends in a non-whitespace character, and
/// everything after it in `s` is whitespace.
pub proof fn lemma_trim_end_white_space(s: Seq<char>)
    ensures
        ({
            let r = trim_end_white_space(s);
            &&& is_prefix(r, s)
            &&& r.len() == 0 || !is_white_space(r.last())
            &&& forall|i: int| r.len() <= i < s.len() ==> is_white_space(#[trigger] s[i])
        }),
    decreases s.len(),
{
    if s.len() > 0 && is_white_space(s.last()) {
        let p = s.drop_last();
        lemma_trim_end_white_space(p);
        let r = trim_end_white_space(p);
        assert(s.take(r.len() as int) =~= p.take(r.len() as int));
        assert forall|i: int| r.len() <= i < s.len() implies is_white_space(#[trigger] s[i]) by {
            if i < p.len() {
                assert(s[i] == p[i]);
            }
        }
    } else {
        assert(s.take(s.len() as int) =~= s);
    }
}

/// `str::trim_end_matches("\r\n")` removes exactly the trailing CRLF pairs:
/// the result is a prefix of `s` that does not end with CRLF, and what follows
/// it in `s` is CRLF repeated.
pub proof fn lemma_trim_line_ends(s: Seq<char>)
    ensures
        ({
            let r = trim_line_ends(s);
            &&& is_prefix(r, s)
            &&& !(r.len() >= 2 && r[r.len() - 2] == '\r' && r[r.len() - 1] == '\n')
            &&& (s.len() - r.len()) % 2 == 0
            &&& forall|i: int|
                0 <= i < s.len() - r.len() ==> #[trigger] s[r.len() + i] == (if i % 2 == 0 {
                    '\r'
                } else {
                    '\n'
                })
        }),
    decreases s.len(),
{
    if s.len() >= 2 && s[s.len() - 2] == '\r' && s[s.len() - 1] == '\n' {
        let p = s.take(s.len() - 2);
        lemma_trim_line_ends(p);
        let r = trim_line_ends(p);
        assert(s.take(r.len() as int) =~= p.take(r.len() as int));
        assert forall|i: int| 0 <= i < s.len() - r.len() implies #[trigger] s[r.len() + i] == (if i
            % 2 == 0 {
            '\r'
        } else {
            '\n'
        }) by {
            if r.len() + i < p.len() {
                assert(s[r.len() + i] == p[r.len() + i]);
            } else if r.len() + i == s.len() - 2 {
                assert(i % 2 == 0);
            } else {
                assert(i % 2 == 1);
            }
        }
    } else {
        assert(s.take(s.len() as int) =~= s);
    }
}

/// The first line is the text before the first line feed, without a carriage
/// return right before that line feed; the whole text when there is no line feed.
pub proof fn lemma_first_line(s: Seq<char>)
    ensures
        forall|i: int| 0 <= i < first_line(s).len() ==> #[trigger] first_line(s)[i] != '\n',
        (forall|i: int| 0 <= i < s.len() ==> s[i] != '\n') ==> first_line(s) == s,
        forall|k: int|
            0 <= k < s.len() && #[trigger] s[k] == '\n' && (forall|j: int| 0 <= j < k ==> s[j]
                != '\n') ==> if k > 0 && s[k - 1] == '\r' {
                first_line(s) == s.take(k - 1)
            } else {
                first_line(s) == s.take(k)
            },
{
    lemma_seg_len_bound(s, '\n');
    let n = seg_len(s, '\n') as int;
    assert forall|i: int| 0 <= i < first_line(s).len() implies #[trigger] first_line(s)[i] != '\n' by {
        assert(first_line(s)[i] == s[i]);
    }
    if forall|i: int| 0 <= i < s.len() ==> s[i] != '\n' {
        if n < s.len() {
            assert(s[n] == '\n');
        }
        assert(s.take(n) =~= s);
    }
    assert forall|k: int|
        0 <= k < s.len() && #[trigger] s[k] == '\n' && (forall|j: int| 0 <= j < k ==> s[j] != '\n')
            implies if k > 0 && s[k - 1] == '\r' {
        first_line(s) == s.take(k - 1)
    } else {
        first_line(s) == s.take(k)
    } by {
        if n < k {
            assert(s[n] == '\n');
        }
        assert(n == k);
        if k > 0 && s[k - 1] == '\r' {
            assert(s.take(k).drop_last() =~= s.take(k - 1));
        }
    }
}

} // verus!
