//! Text handled as sequences of characters: comparison, prefixes, splitting
//! and trimming, each with its meaning stated over `Seq<char>`.

use vstd::prelude::*;

verus! {

/// The characters of `s`, in order.
pub fn chars_of(s: &str) -> (r: Vec<char>)
    ensures
        r@ == s@,
{
    let mut out: Vec<char> = Vec::new();
    for c in it: s.chars()
        invariant
            it.seq() == s@,
            out@ == it.seq().take(it.index() as int),
    {
        out.push(c);
    }
    out
}

/// Whether `a` and `b` hold the same characters.
pub fn same_text(a: &Vec<char>, b: &Vec<char>) -> (r: bool)
    ensures
        r == (a@ == b@),
{
    if a.len() != b.len() {
        return false;
    }
    let mut i: usize = 0;
    while i < a.len()
        invariant
            a.len() == b.len(),
            i <= a.len(),
            forall|k: int| 0 <= k < i ==> a@[k] == b@[k],
        decreases a.len() - i,
    {
        if a[i] != b[i] {
            return false;
        }
        i += 1;
    }
    assert(a@ =~= b@);
    true
}

/// Whether `s` begins with `p`.
pub fn starts_with(s: &Vec<char>, p: &Vec<char>) -> (r: bool)
    ensures
        r == p@.is_prefix_of(s@),
{
    if p.len() > s.len() {
        return false;
    }
    let mut i: usize = 0;
    while i < p.len()
        invariant
            p.len() <= s.len(),
            i <= p.len(),
            forall|k: int| 0 <= k < i ==> s@[k] == p@[k],
        decreases p.len() - i,
    {
        if s[i] != p[i] {
            return false;
        }
        i += 1;
    }
    true
}

/// Lexicographic order on text, character by character.
pub open spec fn lex_le(a: Seq<char>, b: Seq<char>) -> bool
    decreases a.len(),
{
    if a.len() == 0 {
        true
    } else if b.len() == 0 {
        false
    } else if a[0] != b[0] {
        a[0] < b[0]
    } else {
        lex_le(a.drop_first(), b.drop_first())
    }
}

/// Of two texts, one comes no later than the other.
pub proof fn lemma_lex_le_total(a: Seq<char>, b: Seq<char>)
    ensures
        lex_le(a, b) || lex_le(b, a),
    decreases a.len(),
{
    if a.len() > 0 && b.len() > 0 && a[0] == b[0] {
        lemma_lex_le_total(a.drop_first(), b.drop_first());
    }
}

/// A text that comes no later than a second, which comes no later than a
/// third, comes no later than the third.
pub proof fn lemma_lex_le_transitive(a: Seq<char>, b: Seq<char>, c: Seq<char>)
    requires
        lex_le(a, b),
        lex_le(b, c),
    ensures
        lex_le(a, c),
    decreases a.len(),
{
    if a.len() > 0 && b.len() > 0 && c.len() > 0 && a[0] == b[0] && b[0] == c[0] {
        lemma_lex_le_transitive(a.drop_first(), b.drop_first(), c.drop_first());
    }
}

/// Whether `a` comes no later than `b` in lexicographic order.
pub fn text_le(a: &Vec<char>, b: &Vec<char>) -> (r: bool)
    ensures
        r == lex_le(a@, b@),
{
    let mut i: usize = 0;
    assert(a@.skip(0) =~= a@ && b@.skip(0) =~= b@);
    while i < a.len() && i < b.len()
        invariant
            i <= a.len(),
            i <= b.len(),
            lex_le(a@, b@) == lex_le(a@.skip(i as int), b@.skip(i as int)),
        decreases a.len() - i,
    {
        let ghost ra = a@.skip(i as int);
        let ghost rb = b@.skip(i as int);
        if a[i] != b[i] {
            return a[i] < b[i];
        }
        assert(ra.drop_first() =~= a@.skip(i + 1));
        assert(rb.drop_first() =~= b@.skip(i + 1));
        i += 1;
    }
    i == a.len()
}

/// The index of the first `'|'` in `s`, or the length of `s` where it holds none.
pub open spec fn bar_at(s: Seq<char>) -> int
    decreases s.len(),
{
    if s.len() == 0 || s[0] == '|' {
        0
    } else {
        1 + bar_at(s.drop_first())
    }
}

/// `bar_at` is the one index that has no `'|'` before it and either a `'|'`
/// on it or the end of the text.
pub proof fn lemma_bar_at(s: Seq<char>, i: int)
    requires
        0 <= i <= s.len(),
        forall|j: int| 0 <= j < i ==> s[j] != '|',
        i < s.len() ==> s[i] == '|',
    ensures
        bar_at(s) == i,
    decreases s.len(),
{
    if i > 0 {
        let t = s.drop_first();
        lemma_bar_at(t, i - 1);
    }
}

/// Where the first `'|'` stands: within the text, with none before it.
pub proof fn lemma_bar_at_bounds(s: Seq<char>)
    ensures
        0 <= bar_at(s) <= s.len(),
        forall|j: int| 0 <= j < bar_at(s) ==> s[j] != '|',
        bar_at(s) < s.len() ==> s[bar_at(s)] == '|',
    decreases s.len(),
{
    if !(s.len() == 0 || s[0] == '|') {
        let t = s.drop_first();
        lemma_bar_at_bounds(t);
        assert forall|j: int| 0 <= j < bar_at(s) implies s[j] != '|' by {
            if j > 0 {
                assert(s[j] == t[j - 1]);
            }
        }
    }
}

/// The text before the first `'|'`: all of `s` where it holds none.
pub open spec fn before_bar(s: Seq<char>) -> Seq<char> {
    s.take(bar_at(s))
}

/// The text after the first `'|'`, if `s` holds one.
pub open spec fn after_bar(s: Seq<char>) -> Option<Seq<char>> {
    if bar_at(s) < s.len() {
        Some(s.skip(bar_at(s) + 1))
    } else {
        None
    }
}

/// Splits `in_string` at its first `'|'`. The first part is always there;
/// the second is what follows the `'|'`, and is missing where there is none.
pub fn split_once(in_string: &str) -> (r: (Option<&str>, Option<&str>))
    ensures
        r.0 matches Some(a) && a@ == before_bar(in_string@),
        match r.1 {
            Some(b) => after_bar(in_string@) == Some(b@),
            None => after_bar(in_string@) is None,
        },
{
    let chars = chars_of(in_string);
    let n = chars.len();
    let mut i: usize = 0;
    while i < n && chars[i] != '|'
        invariant
            n == chars.len(),
            i <= n,
            forall|j: int| 0 <= j < i ==> chars@[j] != '|',
        decreases n - i,
    {
        i += 1;
    }
    proof {
        lemma_bar_at(in_string@, i as int);
    }
    let first = in_string.substring_char(0, i);
    if i < n {
        let second = in_string.substring_char(i + 1, n);
        (Some(first), Some(second))
    } else {
        (Some(first), None)
    }
}

/// What `char::is_whitespace` answers for `c`.
pub uninterp spec fn white_space(c: char) -> bool;

/// `char::is_whitespace` of std: whether `c` has the Unicode property
/// White_Space. The answer depends on `c` alone and is known here only by
/// its name.
#[verifier::external_body]
fn is_white_space(c: char) -> (r: bool)
    ensures
        r == white_space(c),
{
    c.is_whitespace()
}

/// A character that trimming removes: the space, or any other white space.
pub open spec fn blank(c: char) -> bool {
    c == ' ' || white_space(c)
}

/// Whether trimming removes `c`.
pub fn is_blank(c: char) -> (r: bool)
    ensures
        r == blank(c),
{
    c == ' ' || is_white_space(c)
}

/// How many blanks `s` begins with.
pub open spec fn lead_blanks(s: Seq<char>) -> int
    decreases s.len(),
{
    if s.len() == 0 || !blank(s[0]) {
        0
    } else {
        1 + lead_blanks(s.drop_first())
    }
}

/// How many blanks `s` ends with.
pub open spec fn trail_blanks(s: Seq<char>) -> int
    decreases s.len(),
{
    if s.len() == 0 || !blank(s.last()) {
        0
    } else {
        1 + trail_blanks(s.drop_last())
    }
}

/// `s` without the blanks at its two ends.
pub open spec fn trimmed(s: Seq<char>) -> Seq<char> {
    let t = s.skip(lead_blanks(s));
    t.take(t.len() - trail_blanks(t))
}

/// `lead_blanks` is the length of the longest run of blanks at the start.
pub proof fn lemma_lead_blanks(s: Seq<char>, a: int)
    requires
        0 <= a <= s.len(),
        forall|k: int| 0 <= k < a ==> blank(s[k]),
        a < s.len() ==> !blank(s[a]),
    ensures
        lead_blanks(s) == a,
    decreases s.len(),
{
    if a > 0 {
        let t = s.drop_first();
        lemma_lead_blanks(t, a - 1);
    }
}

/// `trail_blanks` is the length of the longest run of blanks at the end.
pub proof fn lemma_trail_blanks(s: Seq<char>, m: int)
    requires
        0 <= m <= s.len(),
        forall|k: int| s.len() - m <= k < s.len() ==> blank(s[k]),
        m < s.len() ==> !blank(s[s.len() - m - 1]),
    ensures
        trail_blanks(s) == m,
    decreases s.len(),
{
    if m > 0 {
        let t = s.drop_last();
        lemma_trail_blanks(t, m - 1);
    }
}

/// Where the leading blanks end: within the text, with blanks alone before.
pub proof fn lemma_lead_blanks_bounds(s: Seq<char>)
    ensures
        0 <= lead_blanks(s) <= s.len(),
        forall|k: int| 0 <= k < lead_blanks(s) ==> blank(s[k]),
        lead_blanks(s) < s.len() ==> !blank(s[lead_blanks(s)]),
    decreases s.len(),
{
    if !(s.len() == 0 || !blank(s[0])) {
        let t = s.drop_first();
        lemma_lead_blanks_bounds(t);
        assert forall|k: int| 0 <= k < lead_blanks(s) implies blank(s[k]) by {
            if k > 0 {
                assert(s[k] == t[k - 1]);
            }
        }
    }
}

/// There are no more trailing blanks than characters.
pub proof fn lemma_trail_blanks_bounds(s: Seq<char>)
    ensures
        0 <= trail_blanks(s) <= s.len(),
    decreases s.len(),
{
    if !(s.len() == 0 || !blank(s.last())) {
        lemma_trail_blanks_bounds(s.drop_last());
    }
}

/// A blank in front of a text does not change what trimming leaves.
pub proof fn lemma_trim_blank_front(c: char, s: Seq<char>)
    requires
        blank(c),
    ensures
        trimmed(seq![c] + s) == trimmed(s),
{
    let t = seq![c] + s;
    assert(t.drop_first() =~= s);
    lemma_lead_blanks_bounds(s);
    assert(t.skip(lead_blanks(t)) =~= s.skip(lead_blanks(s)));
}

/// A blank behind a text does not change what trimming leaves.
pub proof fn lemma_trim_blank_back(s: Seq<char>, c: char)
    requires
        blank(c),
    ensures
        trimmed(s.push(c)) == trimmed(s),
{
    let t = s.push(c);
    let a = lead_blanks(s);
    lemma_lead_blanks_bounds(s);
    if a == s.len() {
        lemma_lead_blanks(t, t.len() as int);
    } else {
        lemma_lead_blanks(t, a);
        let rest = s.skip(a);
        let more = t.skip(a);
        assert(more.drop_last() =~= rest);
        lemma_trail_blanks_bounds(rest);
    }
}

/// The part of `s` between its leading and trailing blanks.
pub fn trim(s: &str) -> (r: &str)
    ensures
        r@ == trimmed(s@),
{
    let chars = chars_of(s);
    let n = chars.len();
    let mut a: usize = 0;
    while a < n && is_blank(chars[a])
        invariant
            n == chars.len(),
            a <= n,
            forall|k: int| 0 <= k < a ==> blank(chars@[k]),
        decreases n - a,
    {
        a += 1;
    }
    let mut b: usize = n;
    while b > a && is_blank(chars[b - 1])
        invariant
            n == chars.len(),
            a <= b <= n,
            forall|k: int| b <= k < n ==> blank(chars@[k]),
        decreases b,
    {
        b -= 1;
    }
    proof {
        let t = s@.skip(a as int);
        lemma_lead_blanks(s@, a as int);
        lemma_trail_blanks(t, n - b);
    }
    s.substring_char(a, b)
}

/// The texts that a sequence of strings holds.
pub open spec fn texts(v: Seq<String>) -> Seq<Seq<char>> {
    Seq::new(v.len(), |i: int| v[i]@)
}

/// `s` with every line feed left out.
pub open spec fn flattened(s: Seq<char>) -> Seq<char> {
    s.filter(|c: char| c != '\n')
}

/// A copy of `s` without its line feeds.
pub fn without_newlines(s: &str) -> (r: String)
    ensures
        r@ == flattened(s@),
{
    let chars = chars_of(s);
    let n = chars.len();
    let mut out = String::new();
    let mut i: usize = 0;
    while i < n
        invariant
            n == chars.len(),
            chars@ == s@,
            i <= n,
            out@ == flattened(s@.take(i as int)),
        decreases n - i,
    {
        proof {
            s@.take(i as int).lemma_filter_push(s@[i as int], |c: char| c != '\n');
            assert(s@.take(i + 1) =~= s@.take(i as int).push(s@[i as int]));
        }
        if chars[i] != '\n' {
            let one = s.substring_char(i, i + 1);
            out.append(one);
        }
        i += 1;
    }
    assert(s@.take(n as int) =~= s@);
    out
}

/// The words joined into one text, a space before each word that follows
/// a text that is not empty.
pub open spec fn joined(words: Seq<Seq<char>>) -> Seq<char>
    decreases words.len(),
{
    if words.len() == 0 {
        Seq::empty()
    } else {
        let head = joined(words.drop_last());
        if head.len() == 0 {
            words.last()
        } else {
            head.push(' ') + words.last()
        }
    }
}

/// One text out of the words of a command line.
pub fn join_words(words: &Vec<String>) -> (r: String)
    ensures
        r@ == joined(texts(words@)),
{
    let mut out = String::new();
    let mut i: usize = 0;
    while i < words.len()
        invariant
            i <= words.len(),
            out@ == joined(texts(words@).take(i as int)),
        decreases words.len() - i,
    {
        let ghost before = texts(words@).take(i as int);
        let ghost after = texts(words@).take(i + 1);
        assert(after.drop_last() =~= before);
        if out.as_str().unicode_len() != 0 {
            proof {
                reveal_strlit(" ");
            }
            out.append(" ");
        }
        out.append(words[i].as_str());
        i += 1;
    }
    assert(texts(words@).take(words@.len() as int) =~= texts(words@));
    out
}

} // verus!
