//! Splitting source text into tokens.

use vstd::prelude::*;

verus! {

broadcast use vstd::string::group_string_axioms;

/// Relies on `String::push`: the character is appended to the string.
pub assume_specification[ std::string::String::push ](s: &mut std::string::String, ch: char)
    ensures
        final(s)@ == old(s)@.push(ch),
;

/// Whitespace separates tokens and is never part of one.
pub open spec fn is_space(c: char) -> bool {
    c == ' ' || c == '\t' || c == '\n' || c == '\r'
}

/// The two-character symbols.
pub open spec fn is_pair(a: char, b: char) -> bool {
    (a == '=' && b == '=') || (a == '!' && b == '=') || (a == '|' && b == '|') || (a == '&'
        && b == '&') || (a == '*' && b == '*')
}

/// The one-character symbols.
pub open spec fn is_single(c: char) -> bool {
    c == '(' || c == ')' || c == '{' || c == '}' || c == '[' || c == ']' || c == ',' || c == '='
        || c == ';'
}

/// The length of the separator or symbol that starts `s`, the longest one
/// first; zero where `s` starts with an ordinary character.
pub open spec fn special_len(s: Seq<char>) -> nat {
    if s.len() >= 1 && is_space(s[0]) {
        1
    } else if s.len() >= 2 && is_pair(s[0], s[1]) {
        2
    } else if s.len() >= 1 && is_single(s[0]) {
        1
    } else {
        0
    }
}

/// The pending token, if it holds anything.
pub open spec fn flush(cur: Seq<char>) -> Seq<Seq<char>> {
    if cur.len() == 0 {
        seq![]
    } else {
        seq![cur]
    }
}

/// The tokens of `s`, where `cur` holds the characters read since the last
/// separator or symbol.
pub open spec fn lex(s: Seq<char>, cur: Seq<char>) -> Seq<Seq<char>>
    decreases s.len(),
{
    if s.len() == 0 {
        flush(cur)
    } else {
        let k = special_len(s);
        if k == 0 {
            lex(s.drop_first(), cur.push(s[0]))
        } else {
            let sym: Seq<Seq<char>> = if is_space(s[0]) {
                seq![]
            } else {
                seq![s.take(k as int)]
            };
            flush(cur) + sym + lex(s.skip(k as int), seq![])
        }
    }
}

/// The tokens of a whole text, in the order in which they stand.
pub open spec fn tokens_of(s: Seq<char>) -> Seq<Seq<char>> {
    lex(s, seq![])
}

/// A token as the tokenizer emits it: not empty, and free of whitespace.
pub open spec fn clean_token(t: Seq<char>) -> bool {
    t.len() > 0 && forall|j: int| 0 <= j < t.len() ==> !is_space(#[trigger] t[j])
}

/// The view of a list of strings.
pub open spec fn strings_view(v: Seq<String>) -> Seq<Seq<char>> {
    Seq::new(v.len(), |i: int| v[i]@)
}

/// Every token that `lex` emits is clean, given a pending token free of
/// whitespace.
pub proof fn lemma_lex_clean(s: Seq<char>, cur: Seq<char>)
    requires
        forall|j: int| 0 <= j < cur.len() ==> !is_space(#[trigger] cur[j]),
    ensures
        forall|i: int| 0 <= i < lex(s, cur).len() ==> clean_token(#[trigger] lex(s, cur)[i]),
    decreases s.len(),
{
    if s.len() == 0 {
        if cur.len() > 0 {
            assert(lex(s, cur) == seq![cur]);
            assert(lex(s, cur)[0] == cur);
        }
    } else {
        let k = special_len(s);
        if k == 0 {
            let c2 = cur.push(s[0]);
            assert forall|j: int| 0 <= j < c2.len() implies !is_space(#[trigger] c2[j]) by {
                if j < cur.len() {
                    assert(c2[j] == cur[j]);
                }
            }
            lemma_lex_clean(s.drop_first(), c2);
            assert(lex(s, cur) == lex(s.drop_first(), c2));
        } else {
            lemma_lex_clean(s.skip(k as int), seq![]);
            let sym: Seq<Seq<char>> = if is_space(s[0]) {
                seq![]
            } else {
                seq![s.take(k as int)]
            };
            let rest = lex(s.skip(k as int), seq![]);
            let all = flush(cur) + sym + rest;
            assert forall|i: int| 0 <= i < all.len() implies clean_token(#[trigger] all[i]) by {
                if i < flush(cur).len() {
                } else if i < flush(cur).len() + sym.len() {
                    let t = s.take(k as int);
                    assert(t[0] == s[0]);
                    assert forall|j: int| 0 <= j < t.len() implies !is_space(#[trigger] t[j]) by {
                        assert(t[j] == s[j]);
                    }
                } else {
                    assert(all[i] == rest[i - flush(cur).len() - sym.len()]);
                }
            }
            assert(lex(s, cur) == all);
        }
    }
}

/// A string holding `cs[lo..hi]`.
fn string_of(cs: &Vec<char>, lo: usize, hi: usize) -> (r: String)
    requires
        lo <= hi <= cs@.len(),
    ensures
        r@ == cs@.subrange(lo as int, hi as int),
{
    let mut r = String::new();
    let mut i: usize = lo;
    while i < hi
        invariant
            lo <= i <= hi <= cs@.len(),
            r@ == cs@.subrange(lo as int, i as int),
        decreases hi - i,
    {
        r.push(cs[i]);
        assert(r@ =~= cs@.subrange(lo as int, i + 1));
        i += 1;
    }
    r
}

/// The characters of `s`.
pub(crate) fn chars_of(s: &str) -> (r: Vec<char>)
    ensures
        r@ == s@,
{
    let mut r: Vec<char> = Vec::new();
    for c in it: s.chars()
        invariant
            r@ == it.seq().take(it.index()),
    {
        r.push(c);
    }
    r
}

/// Splits `input` into tokens. Whitespace separates tokens; the symbols
/// `== != || && ** ( ) { } [ ] , = ;` are tokens of their own, the longest
/// first; any other run of characters is one token.
pub fn tokenize(input: &str) -> (r: Vec<String>)
    ensures
        strings_view(r@) == tokens_of(input@),
        forall|i: int| 0 <= i < r@.len() ==> clean_token(#[trigger] r@[i]@),
{
    let cs = chars_of(input);
    let n = cs.len();
    let mut tokens: Vec<String> = Vec::new();
    let mut cur = String::new();
    let mut i: usize = 0;
    assert(cs@.skip(0) =~= cs@);
    assert(strings_view(tokens@) + lex(cs@.skip(0), cur@) =~= tokens_of(input@));
    while i < n
        invariant
            n == cs@.len(),
            cs@ == input@,
            i <= n,
            strings_view(tokens@) + lex(cs@.skip(i as int), cur@) == tokens_of(input@),
        decreases n - i,
    {
        let ghost rest = cs@.skip(i as int);
        let ghost before = strings_view(tokens@);
        let c = cs[i];
        let k: usize = if c == ' ' || c == '\t' || c == '\n' || c == '\r' {
            1
        } else if i + 1 < n && ((c == '=' && cs[i + 1] == '=') || (c == '!' && cs[i + 1] == '=')
            || (c == '|' && cs[i + 1] == '|') || (c == '&' && cs[i + 1] == '&') || (c == '*'
            && cs[i + 1] == '*')) {
            2
        } else if c == '(' || c == ')' || c == '{' || c == '}' || c == '[' || c == ']' || c == ','
            || c == '=' || c == ';' {
            1
        } else {
            0
        };
        assert(rest[0] == c);
        assert(rest.len() >= 2 ==> rest[1] == cs@[i + 1]);
        assert(k == special_len(rest));
        if k == 0 {
            cur.push(c);
            assert(rest.drop_first() =~= cs@.skip(i + 1));
            i += 1;
        } else {
            let ghost pending = cur@;
            if !cur.as_str().is_empty() {
                tokens.push(cur);
                assert(strings_view(tokens@) =~= before + flush(pending));
            } else {
                assert(strings_view(tokens@) =~= before + flush(pending));
            }
            let ghost mid = strings_view(tokens@);
            if !(c == ' ' || c == '\t' || c == '\n' || c == '\r') {
                let sym = string_of(&cs, i, i + k);
                assert(sym@ =~= rest.take(k as int));
                tokens.push(sym);
                assert(strings_view(tokens@) =~= mid + seq![rest.take(k as int)]);
            } else {
                assert(strings_view(tokens@) =~= mid + Seq::<Seq<char>>::empty());
            }
            cur = String::new();
            assert(rest.skip(k as int) =~= cs@.skip(i + k));
            i += k;
        }
        assert(strings_view(tokens@) + lex(cs@.skip(i as int), cur@) =~= tokens_of(input@));
    }
    if !cur.as_str().is_empty() {
        let ghost before = strings_view(tokens@);
        let ghost pending = cur@;
        tokens.push(cur);
        assert(strings_view(tokens@) =~= before + flush(pending));
    }
    assert(cs@.skip(i as int) =~= Seq::<char>::empty());
    proof {
        lemma_lex_clean(input@, seq![]);
    }
    assert(strings_view(tokens@) =~= tokens_of(input@));
    assert forall|i: int| 0 <= i < tokens@.len() implies clean_token(#[trigger] tokens@[i]@) by {
        assert(strings_view(tokens@)[i] == tokens@[i]@);
    }
    tokens
}

} // verus!
