//! Verified text primitives: tokenization, sentence splitting, trimming,
//! joining, substring search and token-set similarity.
//!
//! Whitespace is the ASCII whitespace set; every function is specified
//! against a direct recursive definition over the character sequence.

use vstd::prelude::*;

verus! {

use vstd::string::StrSliceExecFns;
use vstd::string::StringExecFns;

/// ASCII whitespace.
pub open spec fn is_space_char(c: char) -> bool {
    c == ' ' || c == '\t' || c == '\n' || c == '\r'
}

/// Exec mirror of [`is_space_char`].
pub fn is_space(c: char) -> (r: bool)
    ensures
        r == is_space_char(c),
{
    c == ' ' || c == '\t' || c == '\n' || c == '\r'
}

/// Whitespace-splitting with an accumulator: `cur` is the token being read.
/// Empty tokens never appear.
pub open spec fn tokens_acc(s: Seq<char>, cur: Seq<char>) -> Seq<Seq<char>>
    decreases s.len(),
{
    if s.len() == 0 {
        if cur.len() == 0 {
            Seq::empty()
        } else {
            seq![cur]
        }
    } else if is_space_char(s[0]) {
        if cur.len() == 0 {
            tokens_acc(s.drop_first(), Seq::empty())
        } else {
            seq![cur] + tokens_acc(s.drop_first(), Seq::empty())
        }
    } else {
        tokens_acc(s.drop_first(), cur.push(s[0]))
    }
}

/// The whitespace-separated tokens of `s`, in order, without empties.
pub open spec fn tokens_of(s: Seq<char>) -> Seq<Seq<char>> {
    tokens_acc(s, Seq::empty())
}

/// Splits a string into its whitespace-separated tokens.
pub fn tokenize(s: &str) -> (r: Vec<String>)
    ensures
        r.deep_view() == tokens_of(s@),
{
    let len: usize = s.unicode_len();
    let mut r: Vec<String> = Vec::new();
    let mut i: usize = 0;
    let mut start: usize = 0;
    proof {
        assert(s@.skip(0) =~= s@);
        assert(s@.subrange(0, 0) =~= Seq::<char>::empty());
        assert(r.deep_view() =~= Seq::<Seq<char>>::empty());
        assert(r.deep_view() + tokens_acc(s@, Seq::empty()) =~= tokens_acc(s@, Seq::empty()));
    }
    while i < len
        invariant
            len == s@.len(),
            start <= i <= len,
            tokens_of(s@) == r.deep_view() + tokens_acc(
                s@.skip(i as int),
                s@.subrange(start as int, i as int),
            ),
        decreases len - i,
    {
        let c = s.get_char(i);
        proof {
            assert(s@.skip(i as int)[0] == s@[i as int]);
            assert(s@.skip(i as int).drop_first() =~= s@.skip(i + 1 as int));
        }
        if is_space(c) {
            if start < i {
                let tok = String::from_str(s.substring_char(start, i));
                let ghost pre = r.deep_view();
                r.push(tok);
                proof {
                    assert(r.deep_view() =~= pre + seq![s@.subrange(start as int, i as int)]);
                    assert(r.deep_view() + tokens_acc(s@.skip(i + 1 as int), Seq::empty()) =~= pre
                        + (seq![s@.subrange(start as int, i as int)] + tokens_acc(
                        s@.skip(i + 1 as int),
                        Seq::empty(),
                    )));
                }
            }
            start = i + 1;
            proof {
                assert(s@.subrange(start as int, (i + 1) as int) =~= Seq::<char>::empty());
            }
        } else {
            proof {
                assert(s@.subrange(start as int, (i + 1) as int) =~= s@.subrange(
                    start as int,
                    i as int,
                ).push(s@[i as int]));
            }
        }
        i = i + 1;
    }
    proof {
        assert(s@.skip(len as int) =~= Seq::<char>::empty());
    }
    if start < len {
        let tok = String::from_str(s.substring_char(start, len));
        let ghost pre = r.deep_view();
        r.push(tok);
        proof {
            assert(r.deep_view() =~= pre + seq![s@.subrange(start as int, len as int)]);
        }
    } else {
        proof {
            assert(s@.subrange(start as int, len as int) =~= Seq::<char>::empty());
        }
    }
    proof {
        assert(r.deep_view() =~= tokens_of(s@));
    }
    r
}

/// Whether two strings hold the same characters.
pub fn str_eq(a: &str, b: &str) -> (r: bool)
    ensures
        r == (a@ == b@),
{
    let la: usize = a.unicode_len();
    let lb: usize = b.unicode_len();
    if la != lb {
        return false;
    }
    let mut i: usize = 0;
    while i < la
        invariant
            la == a@.len(),
            la == b@.len(),
            i <= la,
            forall|k: int| 0 <= k < i ==> a@[k] == b@[k],
        decreases la - i,
    {
        if a.get_char(i) != b.get_char(i) {
            return false;
        }
        i = i + 1;
    }
    proof {
        assert(a@ =~= b@);
    }
    true
}

/// The tokens joined by single spaces.
pub open spec fn join_spaces(ts: Seq<Seq<char>>) -> Seq<char>
    decreases ts.len(),
{
    if ts.len() == 0 {
        Seq::empty()
    } else if ts.len() == 1 {
        ts[0]
    } else {
        join_spaces(ts.drop_last()) + seq![' '] + ts.last()
    }
}

/// Joins strings with single spaces between them.
pub fn join_with_spaces(ts: &Vec<String>) -> (r: String)
    ensures
        r@ == join_spaces(ts.deep_view()),
{
    let mut r = String::new();
    let mut i: usize = 0;
    while i < ts.len()
        invariant
            i <= ts@.len(),
            r@ == join_spaces(ts.deep_view().take(i as int)),
        decreases ts@.len() - i,
    {
        if i > 0 {
            r.append(" ");
            proof {
                reveal_strlit(" ");
            }
        }
        r.append(ts[i].as_str());
        proof {
            assert(ts.deep_view().take((i + 1) as int).drop_last() =~= ts.deep_view().take(
                i as int,
            ));
            assert(ts.deep_view().take((i + 1) as int).last() == ts.deep_view()[i as int]);
            if i > 0 {
                assert(r@ == join_spaces(ts.deep_view().take(i as int)) + seq![' ']
                    + ts.deep_view()[i as int]);
            } else {
                assert(r@ =~= ts.deep_view()[0]);
            }
        }
        i = i + 1;
    }
    proof {
        assert(ts.deep_view().take(ts.deep_view().len() as int) =~= ts.deep_view());
    }
    r
}

/// Leading whitespace removed.
pub open spec fn trim_start_spec(s: Seq<char>) -> Seq<char>
    decreases s.len(),
{
    if s.len() > 0 && is_space_char(s[0]) {
        trim_start_spec(s.drop_first())
    } else {
        s
    }
}

/// Trailing whitespace removed.
pub open spec fn trim_end_spec(s: Seq<char>) -> Seq<char>
    decreases s.len(),
{
    if s.len() > 0 && is_space_char(s.last()) {
        trim_end_spec(s.drop_last())
    } else {
        s
    }
}

/// Leading and trailing whitespace removed.
pub open spec fn trim_of(s: Seq<char>) -> Seq<char> {
    trim_end_spec(trim_start_spec(s))
}

/// Trims ASCII whitespace from both ends.
pub fn trim_str(s: &str) -> (r: String)
    ensures
        r@ == trim_of(s@),
{
    let len: usize = s.unicode_len();
    let mut a: usize = 0;
    proof {
        assert(s@.skip(0) =~= s@);
    }
    while a < len && is_space(s.get_char(a))
        invariant
            len == s@.len(),
            a <= len,
            trim_start_spec(s@) == trim_start_spec(s@.skip(a as int)),
        decreases len - a,
    {
        proof {
            assert(s@.skip(a as int)[0] == s@[a as int]);
            assert(s@.skip(a as int).drop_first() =~= s@.skip((a + 1) as int));
        }
        a = a + 1;
    }
    proof {
        if a < len {
            assert(s@.skip(a as int)[0] == s@[a as int]);
        }
        assert(trim_start_spec(s@) == s@.skip(a as int));
        assert(s@.skip(a as int) =~= s@.subrange(a as int, len as int));
    }
    let mut b: usize = len;
    while b > a && is_space(s.get_char(b - 1))
        invariant
            len == s@.len(),
            a <= b <= len,
            trim_start_spec(s@) == s@.skip(a as int),
            trim_end_spec(s@.subrange(a as int, len as int)) == trim_end_spec(
                s@.subrange(a as int, b as int),
            ),
        decreases b,
    {
        proof {
            assert(s@.subrange(a as int, b as int).last() == s@[(b - 1) as int]);
            assert(s@.subrange(a as int, b as int).drop_last() =~= s@.subrange(
                a as int,
                (b - 1) as int,
            ));
        }
        b = b - 1;
    }
    proof {
        if b > a {
            assert(s@.subrange(a as int, b as int).last() == s@[(b - 1) as int]);
        }
        assert(trim_end_spec(s@.subrange(a as int, b as int)) == s@.subrange(a as int, b as int));
    }
    String::from_str(s.substring_char(a, b))
}

/// Punctuation stripped from the end of a title.
pub open spec fn is_title_punct(c: char) -> bool {
    c == '.' || c == ',' || c == ';' || c == ':'
}

/// The sequence with every trailing title punctuation character removed.
pub open spec fn strip_trailing_punct(s: Seq<char>) -> Seq<char>
    decreases s.len(),
{
    if s.len() > 0 && is_title_punct(s.last()) {
        strip_trailing_punct(s.drop_last())
    } else {
        s
    }
}

/// Exec mirror of [`is_title_punct`].
pub fn is_punct(c: char) -> (r: bool)
    ensures
        r == is_title_punct(c),
{
    c == '.' || c == ',' || c == ';' || c == ':'
}

/// Strips trailing `.`, `,`, `;`, `:` characters.
pub fn strip_punct_str(s: &str) -> (r: String)
    ensures
        r@ == strip_trailing_punct(s@),
{
    let len: usize = s.unicode_len();
    let mut b: usize = len;
    proof {
        assert(s@.subrange(0, len as int) =~= s@);
    }
    while b > 0 && is_punct(s.get_char(b - 1))
        invariant
            len == s@.len(),
            b <= len,
            strip_trailing_punct(s@) == strip_trailing_punct(s@.subrange(0, b as int)),
        decreases b,
    {
        proof {
            assert(s@.subrange(0, b as int).last() == s@[(b - 1) as int]);
            assert(s@.subrange(0, b as int).drop_last() =~= s@.subrange(0, (b - 1) as int));
        }
        b = b - 1;
    }
    proof {
        if b > 0 {
            assert(s@.subrange(0, b as int).last() == s@[(b - 1) as int]);
        }
        assert(strip_trailing_punct(s@) == s@.subrange(0, b as int));
    }
    String::from_str(s.substring_char(0, b))
}

/// The first `n` whitespace tokens of `s` (all of them when fewer).
pub open spec fn first_tokens(s: Seq<char>, n: int) -> Seq<Seq<char>> {
    if tokens_of(s).len() <= n {
        tokens_of(s)
    } else {
        tokens_of(s).take(n)
    }
}

/// The first `n` tokens of `s`, joined with single spaces.
pub fn join_first_tokens(s: &str, n: usize) -> (r: String)
    ensures
        r@ == join_spaces(first_tokens(s@, n as int)),
{
    let mut toks = tokenize(s);
    let ghost full = toks.deep_view();
    if toks.len() > n {
        toks.truncate(n);
        proof {
            assert(toks.deep_view() =~= full.take(n as int));
        }
    }
    proof {
        assert(toks.deep_view() =~= first_tokens(s@, n as int));
    }
    join_with_spaces(&toks)
}

/// The title drawn from a sentence: its first eight words, trailing
/// punctuation stripped.
pub open spec fn title_of(s: Seq<char>) -> Seq<char> {
    strip_trailing_punct(join_spaces(first_tokens(s, 8)))
}

/// Exec mirror of [`title_of`].
pub fn title_from_text(s: &str) -> (r: String)
    ensures
        r@ == title_of(s@),
{
    let joined = join_first_tokens(s, 8);
    strip_punct_str(joined.as_str())
}

/// Whether `needle` occurs contiguously inside `hay`.
pub open spec fn has_sub(hay: Seq<char>, needle: Seq<char>) -> bool {
    exists|i: int|
        0 <= i && i + needle.len() <= hay.len() && #[trigger] hay.subrange(i, i + needle.len())
            == needle
}

/// Substring search by direct comparison.
pub fn contains_sub(hay: &str, needle: &str) -> (r: bool)
    ensures
        r == has_sub(hay@, needle@),
{
    let hl: usize = hay.unicode_len();
    let nl: usize = needle.unicode_len();
    if nl > hl {
        return false;
    }
    if nl == 0 {
        proof {
            assert(hay@.subrange(0, 0 + needle@.len() as int) =~= needle@);
        }
        return true;
    }
    let mut i: usize = 0;
    while i < hl - nl + 1
        invariant
            hl == hay@.len(),
            nl == needle@.len(),
            1 <= nl <= hl,
            i <= hl - nl + 1,
            forall|k: int|
                0 <= k < i ==> #[trigger] hay@.subrange(k, k + needle@.len()) != needle@,
        decreases hl - nl + 1 - i,
    {
        let mut j: usize = 0;
        let mut matched = true;
        while j < nl
            invariant
                hl == hay@.len(),
                nl == needle@.len(),
                i + nl <= hl,
                j <= nl,
                matched ==> forall|k: int| 0 <= k < j ==> hay@[i + k] == needle@[k],
                !matched ==> hay@.subrange(i as int, i as int + needle@.len()) != needle@,
            decreases nl - j,
        {
            if hay.get_char(i + j) != needle.get_char(j) {
                proof {
                    if hay@.subrange(i as int, i as int + needle@.len()) == needle@ {
                        assert(hay@.subrange(i as int, i as int + needle@.len())[j as int]
                            == hay@[i + j]);
                        assert(false);
                    }
                }
                matched = false;
                j = nl;
            } else {
                j = j + 1;
            }
        }
        if matched {
            proof {
                assert(hay@.subrange(i as int, i as int + needle@.len()) =~= needle@);
            }
            return true;
        }
        i = i + 1;
    }
    proof {
        assert forall|k: int| 0 <= k && k + needle@.len() <= hay@.len() implies #[trigger] hay@
            .subrange(k, k + needle@.len()) != needle@ by {
            assert(k < i);
        }
    }
    false
}

/// The decimal digit character for `0..=9`.
pub open spec fn digit_char(d: int) -> char {
    if d == 0 {
        '0'
    } else if d == 1 {
        '1'
    } else if d == 2 {
        '2'
    } else if d == 3 {
        '3'
    } else if d == 4 {
        '4'
    } else if d == 5 {
        '5'
    } else if d == 6 {
        '6'
    } else if d == 7 {
        '7'
    } else if d == 8 {
        '8'
    } else {
        '9'
    }
}

/// The decimal rendering of a non-negative number, without leading zeros.
pub open spec fn dec_str(n: int) -> Seq<char>
    decreases n,
{
    if n < 10 {
        seq![digit_char(n)]
    } else {
        dec_str(n / 10).push(digit_char(n % 10))
    }
}

/// The one-character string for a decimal digit.
pub fn digit_string(d: u8) -> (r: String)
    requires
        d < 10,
    ensures
        r@ == seq![digit_char(d as int)],
{
    proof {
        reveal_strlit("0");
        reveal_strlit("1");
        reveal_strlit("2");
        reveal_strlit("3");
        reveal_strlit("4");
        reveal_strlit("5");
        reveal_strlit("6");
        reveal_strlit("7");
        reveal_strlit("8");
        reveal_strlit("9");
    }
    match d {
        0 => String::from_str("0"),
        1 => String::from_str("1"),
        2 => String::from_str("2"),
        3 => String::from_str("3"),
        4 => String::from_str("4"),
        5 => String::from_str("5"),
        6 => String::from_str("6"),
        7 => String::from_str("7"),
        8 => String::from_str("8"),
        _ => String::from_str("9"),
    }
}

/// Renders a byte-sized number in decimal.
pub fn u8_to_string(n: u8) -> (r: String)
    ensures
        r@ == dec_str(n as int),
{
    if n < 10 {
        digit_string(n)
    } else if n < 100 {
        let r = digit_string(n / 10).concat(digit_string(n % 10).as_str());
        proof {
            assert(r@ =~= dec_str(n as int / 10).push(digit_char(n as int % 10)));
        }
        r
    } else {
        let r = digit_string(n / 100).concat(digit_string((n / 10) % 10).as_str()).concat(
            digit_string(n % 10).as_str(),
        );
        proof {
            assert((n as int / 10) / 10 == n as int / 100) by (nonlinear_arith);
            assert((n as int / 10) % 10 == (n / 10) as int % 10);
            assert(dec_str(n as int / 10) == dec_str(n as int / 100).push(
                digit_char((n as int / 10) % 10),
            ));
            assert(r@ =~= dec_str(n as int / 10).push(digit_char(n as int % 10)));
        }
        r
    }
}

/// Decimal renderings are non-empty and hold no colon.
pub proof fn lemma_dec_str_shape(n: int)
    requires
        n >= 0,
    ensures
        dec_str(n).len() >= 1,
        forall|i: int| 0 <= i < dec_str(n).len() ==> #[trigger] dec_str(n)[i] != ':',
    decreases n,
{
    if n >= 10 {
        lemma_dec_str_shape(n / 10);
        assert forall|i: int| 0 <= i < dec_str(n).len() implies #[trigger] dec_str(n)[i]
            != ':' by {
            if i < dec_str(n).len() - 1 {
                assert(dec_str(n)[i] == dec_str(n / 10)[i]);
            }
        }
    }
}

/// Decimal rendering is injective on non-negative numbers.
pub proof fn lemma_dec_str_injective(a: int, b: int)
    requires
        a >= 0,
        b >= 0,
        dec_str(a) == dec_str(b),
    ensures
        a == b,
    decreases a,
{
    lemma_dec_str_shape(a);
    lemma_dec_str_shape(b);
    if a < 10 && b < 10 {
        assert(dec_str(a)[0] == digit_char(a));
        assert(dec_str(b)[0] == digit_char(b));
    } else if a < 10 {
        assert(dec_str(b).len() >= 2) by {
            lemma_dec_str_shape(b / 10);
        }
    } else if b < 10 {
        assert(dec_str(a).len() >= 2) by {
            lemma_dec_str_shape(a / 10);
        }
    } else {
        assert(dec_str(a).last() == digit_char(a % 10));
        assert(dec_str(b).last() == digit_char(b % 10));
        assert(a % 10 == b % 10);
        assert(dec_str(a).drop_last() =~= dec_str(a / 10)) by {
            assert(dec_str(a) == dec_str(a / 10).push(digit_char(a % 10)));
        }
        assert(dec_str(b).drop_last() =~= dec_str(b / 10)) by {
            assert(dec_str(b) == dec_str(b / 10).push(digit_char(b % 10)));
        }
        lemma_dec_str_injective(a / 10, b / 10);
    }
}

/// Splitting a sequence at its last colon is unambiguous when the tail holds
/// none.
pub proof fn lemma_last_colon_unique(a1: Seq<char>, m1: Seq<char>, a2: Seq<char>, m2: Seq<char>)
    requires
        a1 + seq![':'] + m1 == a2 + seq![':'] + m2,
        forall|i: int| 0 <= i < m1.len() ==> #[trigger] m1[i] != ':',
        forall|i: int| 0 <= i < m2.len() ==> #[trigger] m2[i] != ':',
    ensures
        a1 == a2,
        m1 == m2,
{
    let s = a1 + seq![':'] + m1;
    assert(s.len() == a1.len() + 1 + m1.len());
    assert(s.len() == a2.len() + 1 + m2.len());
    if m1.len() < m2.len() {
        assert(s[a1.len() as int] == ':');
        assert(s[a1.len() as int] == m2[a1.len() - a2.len() - 1]);
        assert(false);
    }
    if m2.len() < m1.len() {
        assert(s[a2.len() as int] == ':');
        assert(s[a2.len() as int] == m1[a2.len() - a1.len() - 1]);
        assert(false);
    }
    assert(a1.len() == a2.len());
    assert(a1 =~= a2) by {
        assert forall|i: int| 0 <= i < a1.len() implies a1[i] == a2[i] by {
            assert(s[i] == a1[i]);
            assert(s[i] == a2[i]);
        }
    }
    assert(m1 =~= m2) by {
        assert forall|i: int| 0 <= i < m1.len() implies m1[i] == m2[i] by {
            assert(s[a1.len() + 1 + i] == m1[i]);
            assert(s[a2.len() + 1 + i] == m2[i]);
        }
    }
}

/// Splitting on the two-character delimiter `". "` with an accumulator:
/// `cur` is the segment being read. Empty segments are kept, as with
/// `str::split`.
pub open spec fn split_sentences_acc(s: Seq<char>, cur: Seq<char>) -> Seq<Seq<char>>
    decreases s.len(),
{
    if s.len() == 0 {
        seq![cur]
    } else if s.len() >= 2 && s[0] == '.' && s[1] == ' ' {
        seq![cur] + split_sentences_acc(s.skip(2), Seq::empty())
    } else {
        split_sentences_acc(s.drop_first(), cur.push(s[0]))
    }
}

/// The period-space-separated sentence-like units of `s`.
pub open spec fn sentences_of(s: Seq<char>) -> Seq<Seq<char>> {
    split_sentences_acc(s, Seq::empty())
}

/// Splits text on `". "` boundaries.
pub fn split_sentences(s: &str) -> (r: Vec<String>)
    ensures
        r.deep_view() == sentences_of(s@),
{
    let len: usize = s.unicode_len();
    let mut r: Vec<String> = Vec::new();
    let mut i: usize = 0;
    let mut start: usize = 0;
    proof {
        assert(s@.skip(0) =~= s@);
        assert(s@.subrange(0, 0) =~= Seq::<char>::empty());
        assert(r.deep_view() =~= Seq::<Seq<char>>::empty());
        assert(r.deep_view() + sentences_of(s@) =~= sentences_of(s@));
    }
    while i < len
        invariant
            len == s@.len(),
            start <= i <= len,
            sentences_of(s@) == r.deep_view() + split_sentences_acc(
                s@.skip(i as int),
                s@.subrange(start as int, i as int),
            ),
        decreases len - i,
    {
        let c = s.get_char(i);
        proof {
            assert(s@.skip(i as int)[0] == s@[i as int]);
            if i + 1 < len {
                assert(s@.skip(i as int)[1] == s@[(i + 1) as int]);
            }
            assert(s@.skip(i as int).drop_first() =~= s@.skip((i + 1) as int));
            if i + 2 <= len {
                assert(s@.skip(i as int).skip(2) =~= s@.skip((i + 2) as int));
            }
        }
        if c == '.' && i + 1 < len && s.get_char(i + 1) == ' ' {
            let seg = String::from_str(s.substring_char(start, i));
            let ghost pre = r.deep_view();
            r.push(seg);
            proof {
                assert(r.deep_view() =~= pre + seq![s@.subrange(start as int, i as int)]);
                assert(r.deep_view() + split_sentences_acc(s@.skip((i + 2) as int), Seq::empty())
                    =~= pre + (seq![s@.subrange(start as int, i as int)] + split_sentences_acc(
                    s@.skip((i + 2) as int),
                    Seq::empty(),
                )));
                assert(s@.subrange(((i + 2)) as int, (i + 2) as int) =~= Seq::<char>::empty());
            }
            i = i + 2;
            start = i;
        } else {
            proof {
                assert(s@.subrange(start as int, (i + 1) as int) =~= s@.subrange(
                    start as int,
                    i as int,
                ).push(s@[i as int]));
                if s@.skip(i as int).len() >= 2 && s@[i as int] == '.' {
                    assert(s@.skip(i as int)[1] == s@[(i + 1) as int]);
                }
            }
            i = i + 1;
        }
    }
    proof {
        assert(s@.skip(len as int) =~= Seq::<char>::empty());
    }
    let seg = String::from_str(s.substring_char(start, len));
    let ghost pre = r.deep_view();
    r.push(seg);
    proof {
        assert(r.deep_view() =~= pre + seq![s@.subrange(start as int, len as int)]);
        assert(r.deep_view() =~= sentences_of(s@));
    }
    r
}

/// The sequence with every element that already occurred earlier removed;
/// first occurrences keep their order.
pub open spec fn dedup_seq(s: Seq<Seq<char>>) -> Seq<Seq<char>>
    decreases s.len(),
{
    if s.len() == 0 {
        Seq::empty()
    } else if s.drop_last().contains(s.last()) {
        dedup_seq(s.drop_last())
    } else {
        dedup_seq(s.drop_last()).push(s.last())
    }
}

/// Deduplication keeps exactly the members.
pub proof fn lemma_dedup_membership(s: Seq<Seq<char>>)
    ensures
        forall|x: Seq<char>| dedup_seq(s).contains(x) == s.contains(x),
        dedup_seq(s).len() <= s.len(),
    decreases s.len(),
{
    if s.len() > 0 {
        lemma_dedup_membership(s.drop_last());
        assert forall|x: Seq<char>| dedup_seq(s).contains(x) == s.contains(x) by {
            if s.contains(x) {
                let i = choose|i: int| 0 <= i < s.len() && s[i] == x;
                if i < s.len() - 1 {
                    assert(s.drop_last()[i] == x);
                    assert(s.drop_last().contains(x));
                    if !s.drop_last().contains(s.last()) {
                        assert(dedup_seq(s) == dedup_seq(s.drop_last()).push(s.last()));
                        let j = choose|j: int|
                            0 <= j < dedup_seq(s.drop_last()).len() && dedup_seq(s.drop_last())[j]
                                == x;
                        assert(dedup_seq(s)[j] == x);
                    }
                } else {
                    assert(s.last() == x);
                    if s.drop_last().contains(x) {
                        assert(dedup_seq(s) == dedup_seq(s.drop_last()));
                    } else {
                        assert(dedup_seq(s) == dedup_seq(s.drop_last()).push(x));
                        assert(dedup_seq(s)[dedup_seq(s).len() - 1] == x);
                    }
                }
            }
            if dedup_seq(s).contains(x) {
                if s.drop_last().contains(s.last()) {
                    assert(s.drop_last().contains(x));
                    let i = choose|i: int| 0 <= i < s.drop_last().len() && s.drop_last()[i] == x;
                    assert(s[i] == x);
                } else {
                    let j = choose|j: int|
                        0 <= j < dedup_seq(s).len() && dedup_seq(s)[j] == x;
                    if j < dedup_seq(s).len() - 1 {
                        assert(dedup_seq(s.drop_last())[j] == x);
                        assert(dedup_seq(s.drop_last()).contains(x));
                        assert(s.drop_last().contains(x));
                        let i = choose|i: int|
                            0 <= i < s.drop_last().len() && s.drop_last()[i] == x;
                        assert(s[i] == x);
                    } else {
                        assert(x == s.last());
                        assert(s[s.len() - 1] == x);
                    }
                }
            }
        }
    }
}

/// Whether the character sequence of `x` occurs among the strings of `v`.
pub fn vec_contains_str(v: &Vec<String>, x: &str) -> (r: bool)
    ensures
        r == v.deep_view().contains(x@),
{
    let mut i: usize = 0;
    while i < v.len()
        invariant
            i <= v@.len(),
            forall|k: int| 0 <= k < i ==> v.deep_view()[k] != x@,
        decreases v@.len() - i,
    {
        if str_eq(v[i].as_str(), x) {
            assert(v.deep_view()[i as int] == x@);
            return true;
        }
        i = i + 1;
    }
    false
}

/// Removes duplicate strings, keeping first occurrences in order.
pub fn dedup_strings(v: &Vec<String>) -> (r: Vec<String>)
    ensures
        r.deep_view() == dedup_seq(v.deep_view()),
{
    let mut r: Vec<String> = Vec::new();
    let mut i: usize = 0;
    proof {
        assert(v.deep_view().take(0) =~= Seq::<Seq<char>>::empty());
        assert(r.deep_view() =~= dedup_seq(v.deep_view().take(0)));
    }
    while i < v.len()
        invariant
            i <= v@.len(),
            r.deep_view() == dedup_seq(v.deep_view().take(i as int)),
        decreases v@.len() - i,
    {
        proof {
            assert(v.deep_view().take((i + 1) as int).drop_last() =~= v.deep_view().take(i as int));
            assert(v.deep_view().take((i + 1) as int).last() == v.deep_view()[i as int]);
            lemma_dedup_membership(v.deep_view().take(i as int));
        }
        if !vec_contains_str(&r, v[i].as_str()) {
            let ghost pre = r.deep_view();
            r.push(v[i].clone());
            proof {
                assert(r.deep_view() =~= pre.push(v.deep_view()[i as int]));
            }
        }
        i = i + 1;
    }
    proof {
        assert(v.deep_view().take(v.deep_view().len() as int) =~= v.deep_view());
    }
    r
}

/// How many entries of `a` (with multiplicity) occur in `b`.
pub open spec fn count_in(a: Seq<Seq<char>>, b: Seq<Seq<char>>) -> int
    decreases a.len(),
{
    if a.len() == 0 {
        0
    } else {
        count_in(a.drop_last(), b) + if b.contains(a.last()) {
            1int
        } else {
            0int
        }
    }
}

/// `count_in` never exceeds the length counted over.
pub proof fn lemma_count_in_bound(a: Seq<Seq<char>>, b: Seq<Seq<char>>)
    ensures
        0 <= count_in(a, b) <= a.len(),
    decreases a.len(),
{
    if a.len() > 0 {
        lemma_count_in_bound(a.drop_last(), b);
    }
}

/// Counts the entries of `a` that occur among `b`.
pub fn count_contained(a: &Vec<String>, b: &Vec<String>) -> (r: usize)
    ensures
        r == count_in(a.deep_view(), b.deep_view()),
        r <= a@.len(),
{
    let mut r: usize = 0;
    let mut i: usize = 0;
    proof {
        assert(a.deep_view().take(0) =~= Seq::<Seq<char>>::empty());
    }
    while i < a.len()
        invariant
            i <= a@.len(),
            r <= i,
            r == count_in(a.deep_view().take(i as int), b.deep_view()),
        decreases a@.len() - i,
    {
        proof {
            assert(a.deep_view().take((i + 1) as int).drop_last() =~= a.deep_view().take(i as int));
            assert(a.deep_view().take((i + 1) as int).last() == a.deep_view()[i as int]);
        }
        if vec_contains_str(b, a[i].as_str()) {
            r = r + 1;
        }
        i = i + 1;
    }
    proof {
        assert(a.deep_view().take(a.deep_view().len() as int) =~= a.deep_view());
    }
    r
}

/// The number of distinct tokens shared by the two token sequences.
pub open spec fn num_shared(a: Seq<Seq<char>>, b: Seq<Seq<char>>) -> int {
    count_in(dedup_seq(a), b)
}

/// The number of distinct tokens occurring in either token sequence.
pub open spec fn num_union(a: Seq<Seq<char>>, b: Seq<Seq<char>>) -> int {
    dedup_seq(a).len() + dedup_seq(b).len() - num_shared(a, b)
}

/// The entries of `a` that occur among `b`, in order.
pub open spec fn matched_seq(a: Seq<Seq<char>>, b: Seq<Seq<char>>) -> Seq<Seq<char>>
    decreases a.len(),
{
    if a.len() == 0 {
        a
    } else {
        matched_seq(a.drop_last(), b) + if b.contains(a.last()) {
            seq![a.last()]
        } else {
            Seq::<Seq<char>>::empty()
        }
    }
}

/// [`matched_seq`] counts what [`count_in`] counts, keeps exactly the shared
/// members, and keeps uniqueness.
pub proof fn lemma_matched_seq(a: Seq<Seq<char>>, b: Seq<Seq<char>>)
    ensures
        matched_seq(a, b).len() == count_in(a, b),
        forall|x: Seq<char>| matched_seq(a, b).contains(x) == (a.contains(x) && b.contains(x)),
        a.no_duplicates() ==> matched_seq(a, b).no_duplicates(),
    decreases a.len(),
{
    if a.len() > 0 {
        lemma_matched_seq(a.drop_last(), b);
        let m = matched_seq(a, b);
        let mrest = matched_seq(a.drop_last(), b);
        assert forall|x: Seq<char>| m.contains(x) == (a.contains(x) && b.contains(x)) by {
            if m.contains(x) {
                let w = choose|w: int| 0 <= w < m.len() && m[w] == x;
                if w < mrest.len() {
                    assert(mrest.contains(x));
                    assert(a.drop_last().contains(x));
                    let w2 = choose|w2: int| 0 <= w2 < a.drop_last().len() && a.drop_last()[w2] == x;
                    assert(a[w2] == x);
                } else {
                    assert(x == a.last());
                    assert(a[a.len() - 1] == x);
                }
            }
            if a.contains(x) && b.contains(x) {
                let w = choose|w: int| 0 <= w < a.len() && a[w] == x;
                if w < a.len() - 1 {
                    assert(a.drop_last()[w] == x);
                    assert(mrest.contains(x));
                    let w2 = choose|w2: int| 0 <= w2 < mrest.len() && mrest[w2] == x;
                    assert(m[w2] == x);
                } else {
                    assert(a.last() == x);
                    assert(m[m.len() - 1] == x);
                }
            }
        }
        if a.no_duplicates() {
            assert(a.drop_last().no_duplicates()) by {
                assert forall|i: int, j: int|
                    0 <= i < a.drop_last().len() && 0 <= j < a.drop_last().len() && i != j implies
                    a.drop_last()[i] != a.drop_last()[j] by {
                    assert(a.drop_last()[i] == a[i]);
                    assert(a.drop_last()[j] == a[j]);
                }
            }
            assert(m.no_duplicates()) by {
                assert forall|i: int, j: int|
                    0 <= i < m.len() && 0 <= j < m.len() && i != j implies m[i] != m[j] by {
                    if i < mrest.len() && j < mrest.len() {
                        assert(mrest[i] == m[i]);
                        assert(mrest[j] == m[j]);
                    } else if i < mrest.len() {
                        assert(m[j] == a.last());
                        assert(mrest.contains(m[i]));
                        assert(a.drop_last().contains(m[i]));
                        if m[i] == a.last() {
                            let w = choose|w: int|
                                0 <= w < a.drop_last().len() && a.drop_last()[w] == m[i];
                            assert(a[w] == a[a.len() - 1]);
                            assert(false);
                        }
                    } else if j < mrest.len() {
                        assert(m[i] == a.last());
                        assert(mrest.contains(m[j]));
                        assert(a.drop_last().contains(m[j]));
                        if m[j] == a.last() {
                            let w = choose|w: int|
                                0 <= w < a.drop_last().len() && a.drop_last()[w] == m[j];
                            assert(a[w] == a[a.len() - 1]);
                            assert(false);
                        }
                    }
                }
            }
        }
    }
}

/// Deduplication leaves no duplicates.
pub proof fn lemma_dedup_no_duplicates(s: Seq<Seq<char>>)
    ensures
        dedup_seq(s).no_duplicates(),
    decreases s.len(),
{
    if s.len() > 0 {
        lemma_dedup_no_duplicates(s.drop_last());
        lemma_dedup_membership(s.drop_last());
        if !s.drop_last().contains(s.last()) {
            let d = dedup_seq(s.drop_last());
            assert forall|i: int, j: int|
                0 <= i < d.push(s.last()).len() && 0 <= j < d.push(s.last()).len() && i != j
                    implies d.push(s.last())[i] != d.push(s.last())[j] by {
                if i < d.len() && j < d.len() {
                    assert(d.push(s.last())[i] == d[i]);
                    assert(d.push(s.last())[j] == d[j]);
                } else if i < d.len() {
                    assert(d.push(s.last())[j] == s.last());
                    assert(d.push(s.last())[i] == d[i]);
                    if d[i] == s.last() {
                        assert(d.contains(s.last())) by {
                            assert(d[i] == s.last());
                        }
                        assert(s.drop_last().contains(s.last()));
                        assert(false);
                    }
                } else if j < d.len() {
                    assert(d.push(s.last())[i] == s.last());
                    assert(d.push(s.last())[j] == d[j]);
                    if d[j] == s.last() {
                        assert(d.contains(s.last())) by {
                            assert(d[j] == s.last());
                        }
                        assert(s.drop_last().contains(s.last()));
                        assert(false);
                    }
                }
            }
        }
    }
}

/// The shared-token count is the cardinality of the token sets'
/// intersection, so it is symmetric; so is the union count.
pub proof fn lemma_shared_is_intersection(a: Seq<Seq<char>>, b: Seq<Seq<char>>)
    ensures
        num_shared(a, b) == a.to_set().intersect(b.to_set()).len(),
        dedup_seq(a).len() == a.to_set().len(),
    decreases a.len(),
{
    lemma_dedup_no_duplicates(a);
    lemma_dedup_membership(a);
    lemma_matched_seq(dedup_seq(a), b);
    let m = matched_seq(dedup_seq(a), b);
    m.unique_seq_to_set();
    assert(m.to_set() =~= a.to_set().intersect(b.to_set())) by {
        assert forall|x: Seq<char>|
            m.to_set().contains(x) == a.to_set().intersect(b.to_set()).contains(x) by {
            assert(m.to_set().contains(x) == m.contains(x));
            assert(a.to_set().contains(x) == a.contains(x));
            assert(b.to_set().contains(x) == b.contains(x));
        }
    }
    dedup_seq(a).unique_seq_to_set();
    assert(dedup_seq(a).to_set() =~= a.to_set()) by {
        assert forall|x: Seq<char>|
            dedup_seq(a).to_set().contains(x) == a.to_set().contains(x) by {
            assert(dedup_seq(a).to_set().contains(x) == dedup_seq(a).contains(x));
            assert(a.to_set().contains(x) == a.contains(x));
        }
    }
}

/// Token similarity does not depend on the order of its two texts.
pub proof fn lemma_token_sim_symmetric(x: Seq<char>, y: Seq<char>, p: int, q: int)
    ensures
        token_sim_gt(x, y, p, q) == token_sim_gt(y, x, p, q),
{
    let a = tokens_of(x);
    let b = tokens_of(y);
    lemma_shared_is_intersection(a, b);
    lemma_shared_is_intersection(b, a);
    assert(a.to_set().intersect(b.to_set()) =~= b.to_set().intersect(a.to_set()));
}

/// Whether the Jaccard similarity of the token sets of `x` and `y` strictly
/// exceeds `p/q` (with similarity `0` when both are empty).
pub open spec fn token_sim_gt(x: Seq<char>, y: Seq<char>, p: int, q: int) -> bool {
    q * num_shared(tokens_of(x), tokens_of(y)) > p * num_union(tokens_of(x), tokens_of(y))
}

/// Decides [`token_sim_gt`] by exact integer arithmetic. The threshold is
/// `p/q`; thresholds are small rationals.
pub fn sim_exceeds(x: &str, y: &str, p: u64, q: u64) -> (r: bool)
    requires
        p <= 1000,
        q <= 1000,
    ensures
        r == token_sim_gt(x@, y@, p as int, q as int),
{
    let ta = tokenize(x);
    let tb = tokenize(y);
    let da = dedup_strings(&ta);
    let db = dedup_strings(&tb);
    let shared = count_contained(&da, &tb);
    proof {
        lemma_count_in_bound(da.deep_view(), tb.deep_view());
        lemma_dedup_membership(ta.deep_view());
        lemma_dedup_membership(tb.deep_view());
    }
    let qq: u128 = q as u128;
    let pp: u128 = p as u128;
    let ss: u128 = shared as u128;
    let uni: u128 = da.len() as u128 + db.len() as u128 - ss;
    proof {
        assert(qq * ss <= 1000 * 0xffff_ffff_ffff_ffffu128) by (nonlinear_arith)
            requires
                qq <= 1000,
                ss <= 0xffff_ffff_ffff_ffffu128,
        ;
        assert(pp * uni <= 1000 * 0x1_ffff_ffff_ffff_fffeu128) by (nonlinear_arith)
            requires
                pp <= 1000,
                uni <= 0x1_ffff_ffff_ffff_fffeu128,
        ;
    }
    qq * ss > pp * uni
}

} // verus!
