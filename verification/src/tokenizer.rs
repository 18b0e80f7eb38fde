//! Splitting a raw input line into whitespace-delimited words and stripping a
//! trailing background marker (`&`).

use vstd::prelude::*;

verus! {

/// The characters a line is split on: Unicode's White_Space set, which is
/// what `char::is_whitespace` reports.
pub open spec fn is_space(c: char) -> bool {
    c == ' ' || c == '\t' || c == '\n' || c == '\r' || c == '\u{b}' || c == '\u{c}'
        || c == '\u{85}' || c == '\u{a0}' || c == '\u{1680}'
        || (0x2000 <= c as u32 && c as u32 <= 0x200a)
        || c == '\u{2028}' || c == '\u{2029}' || c == '\u{202f}' || c == '\u{205f}'
        || c == '\u{3000}'
}

/// Decides `is_space` on a concrete character.
pub fn is_space_char(c: char) -> (r: bool)
    ensures
        r == is_space(c),
{
    let u: u32 = c as u32;
    u == 0x20 || u == 0x9 || u == 0xa || u == 0xd || u == 0xb || u == 0xc || u == 0x85
        || u == 0xa0 || u == 0x1680 || (0x2000 <= u && u <= 0x200a) || u == 0x2028
        || u == 0x2029 || u == 0x202f || u == 0x205f || u == 0x3000
}

/// The whitespace-delimited words of `s`, in order. Defined by how one more
/// character extends the split: a space character closes the current word, a
/// non-space character either extends the word in progress or starts a new
/// one. No word is empty.
pub open spec fn split_words(s: Seq<char>) -> Seq<Seq<char>>
    decreases s.len(),
{
    if s.len() == 0 {
        Seq::empty()
    } else {
        let rest = split_words(s.drop_last());
        let c = s.last();
        if is_space(c) {
            rest
        } else if s.len() >= 2 && !is_space(s[s.len() - 2]) {
            rest.update(rest.len() - 1, rest.last().push(c))
        } else {
            rest.push(seq![c])
        }
    }
}

/// A raw input line split into words, with a trailing `&` word stripped into
/// the `background` flag.
pub struct TokenSequence {
    pub tokens: Vec<String>,
    pub background: bool,
}

impl TokenSequence {
    /// The words as mathematical character sequences.
    pub open spec fn words(&self) -> Seq<Seq<char>> {
        self.tokens.deep_view()
    }
}

/// What `tokenize` yields on a line: its words, minus a final `&` word, which
/// instead sets the background flag. A `&` glued to the end of a word (as in
/// `ls&`) is part of that word and marks nothing.
pub open spec fn spec_tokenize(s: Seq<char>) -> (Seq<Seq<char>>, bool) {
    let w = split_words(s);
    if w.len() > 0 && w.last() == seq!['&'] {
        (w.drop_last(), true)
    } else {
        (w, false)
    }
}

/// A sequence ending in a non-space character splits into at least one
/// word.
proof fn lemma_split_ends_in_word(s: Seq<char>)
    requires
        s.len() > 0,
        !is_space(s.last()),
    ensures
        split_words(s).len() >= 1,
    decreases s.len(),
{
    if s.len() >= 2 && !is_space(s[s.len() - 2]) {
        assert(s.drop_last().last() == s[s.len() - 2]);
        lemma_split_ends_in_word(s.drop_last());
    }
}

/// Law: the words of a line are well formed — none is empty, and none holds
/// a whitespace character.
pub proof fn lemma_words_well_formed(line: Seq<char>)
    ensures
        forall|j: int|
            0 <= j < split_words(line).len() ==> (#[trigger] split_words(line)[j]).len() > 0,
        forall|j: int, k: int|
            0 <= j < split_words(line).len() && 0 <= k < split_words(line)[j].len() ==> !is_space(
                #[trigger] split_words(line)[j][k],
            ),
    decreases line.len(),
{
    if line.len() == 0 {
    } else {
        lemma_words_well_formed(line.drop_last());
        let rest = split_words(line.drop_last());
        let c = line.last();
        let w = split_words(line);
        if is_space(c) {
        } else if line.len() >= 2 && !is_space(line[line.len() - 2]) {
            assert(line.drop_last().last() == line[line.len() - 2]);
            lemma_split_ends_in_word(line.drop_last());
            assert(w == rest.update(rest.len() - 1, rest.last().push(c)));
            assert forall|j: int, k: int|
                0 <= j < w.len() && 0 <= k < w[j].len() implies !is_space(w[j][k]) by {
                if j < w.len() - 1 {
                    assert(w[j] == rest[j]);
                } else {
                    assert(w[j] == rest.last().push(c));
                }
            }
        } else {
            assert(w == rest.push(seq![c]));
            assert forall|j: int, k: int|
                0 <= j < w.len() && 0 <= k < w[j].len() implies !is_space(w[j][k]) by {
                if j < w.len() - 1 {
                    assert(w[j] == rest[j]);
                } else {
                    assert(w[j] == seq![c]);
                }
            }
        }
    }
}

/// Law: the tokens that `tokenize` yields are well formed too — stripping a
/// trailing `&` removes a whole word, so still no token is empty and none
/// holds a whitespace character.
pub proof fn lemma_token_sequence_well_formed(line: Seq<char>)
    ensures
        forall|j: int|
            0 <= j < spec_tokenize(line).0.len() ==> (#[trigger] spec_tokenize(
                line,
            ).0[j]).len() > 0,
        forall|j: int, k: int|
            0 <= j < spec_tokenize(line).0.len() && 0 <= k < spec_tokenize(line).0[j].len()
                ==> !is_space(#[trigger] spec_tokenize(line).0[j][k]),
{
    lemma_words_well_formed(line);
    assert forall|j: int| 0 <= j < spec_tokenize(line).0.len() implies (#[trigger] spec_tokenize(
        line,
    ).0[j]).len() > 0 by {
        assert(spec_tokenize(line).0[j] == split_words(line)[j]);
    }
    assert forall|j: int, k: int|
        0 <= j < spec_tokenize(line).0.len() && 0 <= k < spec_tokenize(line).0[j].len()
        implies !is_space(spec_tokenize(line).0[j][k]) by {
        assert(spec_tokenize(line).0[j] == split_words(line)[j]);
    }
}

/// Law: a line whose last word is exactly the standalone `&` is marked
/// background and that word is dropped before parsing ever sees it; a line
/// whose last word merely ends in `&` (such as `run&`) keeps every word and
/// leaves the background flag clear.
pub proof fn lemma_trailing_ampersand(line: Seq<char>)
    ensures
        split_words(line).len() > 0 && split_words(line).last() == seq!['&']
            ==> spec_tokenize(line).1 == true && spec_tokenize(line).0 == split_words(
            line,
        ).drop_last(),
        !(split_words(line).len() > 0 && split_words(line).last() == seq!['&']) ==> spec_tokenize(
            line,
        ).1 == false && spec_tokenize(line).0 == split_words(line),
{
}

/// Whether a word is exactly the background marker `&`.
fn is_ampersand(t: &String) -> (r: bool)
    ensures
        r == (t@ == seq!['&']),
{
    let s: &str = t.as_str();
    if s.unicode_len() == 1 {
        let r = s.get_char(0) == '&';
        proof {
            if r {
                assert(t@ =~= seq!['&']);
            }
        }
        r
    } else {
        proof {
            assert(seq!['&'].len() == 1);
        }
        false
    }
}

/// Splits a line on runs of whitespace and strips a trailing `&` word into
/// the background flag. Never fails: every string, the empty one included,
/// yields a valid (possibly empty) token sequence.
pub fn tokenize(line: &str) -> (ts: TokenSequence)
    ensures
        ts.words() == spec_tokenize(line@).0,
        ts.background == spec_tokenize(line@).1,
{
    let ghost s: Seq<char> = line@;
    let n: usize = line.unicode_len();
    let mut tokens: Vec<String> = Vec::new();
    let mut cur: String = String::new();
    let mut i: usize = 0;
    while i < n
        invariant
            0 <= i <= n,
            n == s.len(),
            s == line@,
            cur@.len() == 0 ==> tokens.deep_view() == split_words(s.take(i as int)),
            cur@.len() == 0 ==> (i == 0 || is_space(s[i as int - 1])),
            cur@.len() > 0 ==> i > 0 && !is_space(s[i as int - 1]) && split_words(
                s.take(i as int),
            ) == tokens.deep_view().push(cur@),
        decreases n - i,
    {
        let c = line.get_char(i);
        proof {
            assert(s.take(i as int + 1).drop_last() =~= s.take(i as int));
            assert(s.take(i as int + 1).last() == s[i as int]);
        }
        if is_space_char(c) {
            if cur.as_str().unicode_len() > 0 {
                let ghost old_toks = tokens.deep_view();
                tokens.push(cur);
                proof {
                    assert(tokens.deep_view() =~= old_toks.push(split_words(
                        s.take(i as int),
                    ).last()));
                    assert(tokens.deep_view() =~= split_words(s.take(i as int)));
                }
                cur = String::new();
            }
        } else {
            let ghost old_cur = cur@;
            let ghost old_toks = tokens.deep_view();
            let piece: &str = line.substring_char(i, i + 1);
            proof {
                assert(piece@ =~= seq![s[i as int]]);
            }
            cur.append(piece);
            proof {
                assert(cur@ =~= old_cur.push(s[i as int]));
                let t1 = s.take(i as int + 1);
                if old_cur.len() == 0 {
                    assert(split_words(t1) =~= old_toks.push(cur@));
                } else {
                    let t0 = s.take(i as int);
                    assert(split_words(t0) == old_toks.push(old_cur));
                    assert(split_words(t0).last() == old_cur);
                    assert(split_words(t1) == split_words(t0).update(
                        split_words(t0).len() - 1,
                        old_cur.push(s[i as int]),
                    ));
                    assert(split_words(t1) =~= old_toks.push(cur@));
                }
            }
        }
        i = i + 1;
    }
    proof {
        assert(s.take(n as int) =~= s);
    }
    if cur.as_str().unicode_len() > 0 {
        let ghost old_toks = tokens.deep_view();
        tokens.push(cur);
        proof {
            assert(tokens.deep_view() =~= old_toks.push(split_words(s).last()));
            assert(tokens.deep_view() =~= split_words(s));
        }
    }
    let background = if tokens.len() > 0 {
        is_ampersand(&tokens[tokens.len() - 1])
    } else {
        false
    };
    if background {
        tokens.pop();
        proof {
            assert(tokens.deep_view() =~= split_words(s).drop_last());
        }
    }
    TokenSequence { tokens, background }
}

} // verus!
