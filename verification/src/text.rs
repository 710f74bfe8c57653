use vstd::prelude::*;

verus! {

// ===========================================================================
// Character classes
// ===========================================================================

/// ASCII whitespace: what separates tokens within a line, and what
/// trimming removes.
pub open spec fn is_space_char(c: char) -> bool {
    c == ' ' || c == '\t' || c == '\n' || c == '\r' || c == '\u{b}' || c == '\u{c}'
}

pub fn is_space(c: char) -> (r: bool)
    ensures
        r == is_space_char(c),
{
    c == ' ' || c == '\t' || c == '\n' || c == '\r' || c == '\u{b}' || c == '\u{c}'
}

// ===========================================================================
// First occurrence of a separator
// ===========================================================================

/// Index of the first whitespace character, or `s.len()` if there is none.
pub open spec fn first_space(s: Seq<char>) -> nat
    decreases s.len(),
{
    if s.len() == 0 || is_space_char(s[0]) {
        0
    } else {
        (1 + first_space(s.drop_first())) as nat
    }
}

pub proof fn lemma_first_space_at(s: Seq<char>, k: int)
    requires
        0 <= k <= s.len(),
        forall|j: int| 0 <= j < k ==> !is_space_char(#[trigger] s[j]),
        k < s.len() ==> is_space_char(s[k]),
    ensures
        first_space(s) == k,
    decreases k,
{
    if k > 0 {
        assert(!is_space_char(s[0]));
        assert(forall|j: int| 0 <= j < k - 1 ==> !is_space_char(#[trigger] s.drop_first()[j]));
        lemma_first_space_at(s.drop_first(), k - 1);
    }
}

/// Index of the first occurrence of `c`, or `s.len()` if `c` is absent.
pub open spec fn first_char(s: Seq<char>, c: char) -> nat
    decreases s.len(),
{
    if s.len() == 0 || s[0] == c {
        0
    } else {
        (1 + first_char(s.drop_first(), c)) as nat
    }
}

pub proof fn lemma_first_char_at(s: Seq<char>, c: char, k: int)
    requires
        0 <= k <= s.len(),
        forall|j: int| 0 <= j < k ==> #[trigger] s[j] != c,
        k < s.len() ==> s[k] == c,
    ensures
        first_char(s, c) == k,
    decreases k,
{
    if k > 0 {
        assert(s[0] != c);
        assert(forall|j: int| 0 <= j < k - 1 ==> #[trigger] s.drop_first()[j] != c);
        lemma_first_char_at(s.drop_first(), c, k - 1);
    }
}

pub proof fn lemma_first_char_props(s: Seq<char>, c: char)
    ensures
        first_char(s, c) <= s.len(),
        forall|j: int| 0 <= j < first_char(s, c) ==> #[trigger] s[j] != c,
        first_char(s, c) < s.len() ==> s[first_char(s, c) as int] == c,
    decreases s.len(),
{
    if s.len() > 0 && s[0] != c {
        lemma_first_char_props(s.drop_first(), c);
        assert forall|j: int| 1 <= j < first_char(s, c) implies s[j] != c by {
            assert(s.drop_first()[j - 1] == s[j]);
        }
    }
}

/// First occurrence of `c` clamped to the length of `s`.
pub open spec fn char_break(s: Seq<char>, c: char) -> int {
    if first_char(s, c) <= s.len() {
        first_char(s, c) as int
    } else {
        s.len() as int
    }
}

/// The part of `s` before the first occurrence of `c` (all of `s` if absent).
pub open spec fn prefix_before(s: Seq<char>, c: char) -> Seq<char> {
    s.take(char_break(s, c))
}

/// Finds the first occurrence of `c`, returning `s.len()` if absent.
pub fn find_char(s: &str, c: char) -> (r: usize)
    ensures
        r == char_break(s@, c),
        r <= s@.len(),
{
    let n = s.unicode_len();
    let mut i: usize = 0;
    while i < n && s.get_char(i) != c
        invariant
            0 <= i <= n,
            n == s@.len(),
            forall|j: int| 0 <= j < i ==> #[trigger] s@[j] != c,
        decreases n - i,
    {
        i += 1;
    }
    proof {
        lemma_first_char_at(s@, c, i as int);
    }
    i
}

// ===========================================================================
// Whitespace tokenization of a line
// ===========================================================================

/// First whitespace clamped to the length of `s`.
pub open spec fn space_break(s: Seq<char>) -> int {
    if first_space(s) <= s.len() {
        first_space(s) as int
    } else {
        s.len() as int
    }
}

/// The maximal whitespace-separated words of `s`, in order.
pub open spec fn tokens(s: Seq<char>) -> Seq<Seq<char>>
    decreases s.len(),
{
    if s.len() == 0 {
        Seq::<Seq<char>>::empty()
    } else if is_space_char(s[0]) {
        tokens(s.drop_first())
    } else {
        seq![s.take(space_break(s))] + tokens(s.skip(space_break(s)))
    }
}

/// Skipping one leading whitespace character does not change the tokens.
pub proof fn lemma_tokens_skip_space(s: Seq<char>, i: int)
    requires
        0 <= i < s.len(),
        is_space_char(s[i]),
    ensures
        tokens(s.skip(i)) == tokens(s.skip(i + 1)),
{
    assert(s.skip(i).drop_first() =~= s.skip(i + 1));
}

/// A maximal word starting at `i` and ending at `e` is the next token.
pub proof fn lemma_tokens_take_token(s: Seq<char>, i: int, e: int)
    requires
        0 <= i < e <= s.len(),
        forall|j: int| i <= j < e ==> !is_space_char(#[trigger] s[j]),
        e < s.len() ==> is_space_char(s[e]),
    ensures
        tokens(s.skip(i)) == seq![s.subrange(i, e)] + tokens(s.skip(e)),
{
    let t = s.skip(i);
    assert(forall|j: int| 0 <= j < e - i ==> !is_space_char(#[trigger] t[j]));
    lemma_first_space_at(t, e - i);
    assert(space_break(t) == e - i);
    assert(!is_space_char(t[0]));
    assert(t.take(e - i) =~= s.subrange(i, e));
    assert(t.skip(e - i) =~= s.skip(e));
    assert(tokens(t) == seq![t.take(e - i)] + tokens(t.skip(e - i)));
}

/// A run of whitespace in front of `t` does not change the tokens.
pub proof fn lemma_tokens_space_prefix(sp: Seq<char>, t: Seq<char>)
    requires
        forall|j: int| 0 <= j < sp.len() ==> is_space_char(#[trigger] sp[j]),
    ensures
        tokens(sp + t) == tokens(t),
    decreases sp.len(),
{
    if sp.len() == 0 {
        assert(sp + t =~= t);
    } else {
        assert(is_space_char((sp + t)[0]));
        assert((sp + t).drop_first() =~= sp.drop_first() + t);
        assert(forall|j: int| 0 <= j < sp.drop_first().len() ==> is_space_char(
            #[trigger] sp.drop_first()[j],
        ));
        lemma_tokens_space_prefix(sp.drop_first(), t);
    }
}

/// A sequence that is all whitespace has no tokens.
pub proof fn lemma_tokens_all_space(sp: Seq<char>)
    requires
        forall|j: int| 0 <= j < sp.len() ==> is_space_char(#[trigger] sp[j]),
    ensures
        tokens(sp) == Seq::<Seq<char>>::empty(),
{
    assert(sp + Seq::<char>::empty() =~= sp);
    lemma_tokens_space_prefix(sp, Seq::<char>::empty());
}

/// A word followed by whitespace (or the end) is the first token.
pub proof fn lemma_tokens_word(w: Seq<char>, t: Seq<char>)
    requires
        w.len() > 0,
        forall|j: int| 0 <= j < w.len() ==> !is_space_char(#[trigger] w[j]),
        t.len() == 0 || is_space_char(t[0]),
    ensures
        tokens(w + t) == seq![w] + tokens(t),
{
    let s = w + t;
    assert(forall|j: int| 0 <= j < w.len() ==> !is_space_char(#[trigger] s[j]));
    lemma_first_space_at(s, w.len() as int);
    assert(space_break(s) == w.len());
    assert(!is_space_char(s[0]));
    assert(s.take(w.len() as int) =~= w);
    assert(s.skip(w.len() as int) =~= t);
    assert(tokens(s) == seq![s.take(w.len() as int)] + tokens(s.skip(w.len() as int)));
}

// ===========================================================================
// Joining words with a separator
// ===========================================================================

/// The words of `parts` joined by single occurrences of `sep`.
pub open spec fn join_with(parts: Seq<Seq<char>>, sep: Seq<char>) -> Seq<char>
    decreases parts.len(),
{
    if parts.len() == 0 {
        Seq::<char>::empty()
    } else if parts.len() == 1 {
        parts[0]
    } else {
        parts[0] + sep + join_with(parts.drop_first(), sep)
    }
}

/// Appending one more word to a non-empty join appends a separator and the word.
pub proof fn lemma_join_with_snoc(parts: Seq<Seq<char>>, sep: Seq<char>, w: Seq<char>)
    ensures
        parts.len() == 0 ==> join_with(parts.push(w), sep) == w,
        parts.len() > 0 ==> join_with(parts.push(w), sep) == join_with(parts, sep) + sep + w,
    decreases parts.len(),
{
    let p = parts.push(w);
    if parts.len() == 0 {
        assert(p.len() == 1);
        assert(p[0] == w);
    } else if parts.len() == 1 {
        assert(p.len() == 2);
        assert(p.drop_first() =~= seq![w]);
        assert(join_with(p.drop_first(), sep) == w);
        assert(p[0] == parts[0]);
        assert(join_with(parts, sep) == parts[0]);
    } else {
        assert(p.drop_first() =~= parts.drop_first().push(w));
        lemma_join_with_snoc(parts.drop_first(), sep, w);
        assert(join_with(p, sep) == p[0] + sep + join_with(p.drop_first(), sep));
        assert(p[0] == parts[0]);
        assert(parts[0] + sep + (join_with(parts.drop_first(), sep) + sep + w) =~= (parts[0] + sep
            + join_with(parts.drop_first(), sep)) + sep + w);
    }
}

/// Tokenizing a space-join of words recovers exactly those words.
pub proof fn lemma_tokens_join(parts: Seq<Seq<char>>, tail: Seq<char>)
    requires
        forall|i: int|
            0 <= i < parts.len() ==> (#[trigger] parts[i]).len() > 0 && forall|j: int|
                0 <= j < parts[i].len() ==> !is_space_char(#[trigger] parts[i][j]),
        tail.len() == 0 || is_space_char(tail[0]),
    ensures
        tokens(join_with(parts, sp1()) + tail) == parts + tokens(tail),
    decreases parts.len(),
{
    if parts.len() == 0 {
        assert(join_with(parts, sp1()) + tail =~= tail);
        assert(parts + tokens(tail) =~= tokens(tail));
    } else if parts.len() == 1 {
        lemma_tokens_word(parts[0], tail);
        assert(join_with(parts, sp1()) == parts[0]);
        assert(parts =~= seq![parts[0]]);
    } else {
        let rest = parts.drop_first();
        let inner = join_with(rest, sp1()) + tail;
        assert(join_with(parts, sp1()) + tail =~= parts[0] + (sp1() + inner));
        assert(is_space_char((sp1() + inner)[0]));
        lemma_tokens_word(parts[0], sp1() + inner);
        assert(forall|j: int| 0 <= j < sp1().len() ==> is_space_char(#[trigger] sp1()[j]));
        lemma_tokens_space_prefix(sp1(), inner);
        lemma_tokens_join(rest, tail);
        assert(tokens(join_with(parts, sp1()) + tail) == seq![parts[0]] + (rest + tokens(tail)));
        assert(seq![parts[0]] + (rest + tokens(tail)) =~= parts + tokens(tail));
    }
}

/// A single space, the separator used between hostnames.
pub open spec fn sp1() -> Seq<char> {
    seq![' ']
}

// ===========================================================================
// Splitting text into lines
// ===========================================================================

/// The segments of `s` between newline characters, in order.
///
/// Text that ends with a newline yields a final empty segment, so the result
/// is never empty.
pub open spec fn split_lines(s: Seq<char>) -> Seq<Seq<char>>
    decreases s.len(),
{
    let e = char_break(s, '\n');
    if e == s.len() {
        seq![s]
    } else {
        seq![s.take(e)] + split_lines(s.skip(e + 1))
    }
}

pub proof fn lemma_split_lines_found(s: Seq<char>, i: int, j: int)
    requires
        0 <= i <= j < s.len(),
        forall|k: int| i <= k < j ==> #[trigger] s[k] != '\n',
        s[j] == '\n',
    ensures
        split_lines(s.skip(i)) == seq![s.subrange(i, j)] + split_lines(s.skip(j + 1)),
{
    let t = s.skip(i);
    assert(forall|k: int| 0 <= k < j - i ==> #[trigger] t[k] != '\n');
    lemma_first_char_at(t, '\n', j - i);
    assert(char_break(t, '\n') == j - i);
    assert(t.take(j - i) =~= s.subrange(i, j));
    assert(t.skip(j - i + 1) =~= s.skip(j + 1));
    assert(split_lines(t) == seq![t.take(j - i)] + split_lines(t.skip(j - i + 1)));
}

pub proof fn lemma_split_lines_none(s: Seq<char>, i: int)
    requires
        0 <= i <= s.len(),
        forall|k: int| i <= k < s.len() ==> #[trigger] s[k] != '\n',
    ensures
        split_lines(s.skip(i)) == seq![s.subrange(i, s.len() as int)],
{
    let t = s.skip(i);
    assert(forall|k: int| 0 <= k < t.len() ==> #[trigger] t[k] != '\n');
    lemma_first_char_at(t, '\n', t.len() as int);
    assert(t =~= s.subrange(i, s.len() as int));
}

/// Peeling one newline-terminated segment off the front of a split.
pub proof fn lemma_split_lines_step(x: Seq<char>, rest: Seq<char>)
    requires
        forall|j: int| 0 <= j < x.len() ==> #[trigger] x[j] != '\n',
    ensures
        split_lines(x + seq!['\n'] + rest) == seq![x] + split_lines(rest),
{
    let s = x + seq!['\n'] + rest;
    assert(forall|k: int| 0 <= k < x.len() ==> #[trigger] s[k] != '\n');
    assert(s[x.len() as int] == '\n');
    assert(s.skip(0) =~= s);
    lemma_split_lines_found(s, 0, x.len() as int);
    assert(s.subrange(0, x.len() as int) =~= x);
    assert(s.skip(x.len() as int + 1) =~= rest);
}

/// A split always yields at least one segment.
pub proof fn lemma_split_lines_len(s: Seq<char>)
    ensures
        split_lines(s).len() >= 1,
    decreases s.len(),
{
    let e = char_break(s, '\n');
    if e != s.len() {
        lemma_first_char_props(s, '\n');
        lemma_split_lines_len(s.skip(e + 1));
    }
}

// ===========================================================================
// Trimming surrounding whitespace
// ===========================================================================

pub open spec fn trim_start_spec(s: Seq<char>) -> Seq<char>
    decreases s.len(),
{
    if s.len() > 0 && is_space_char(s[0]) {
        trim_start_spec(s.drop_first())
    } else {
        s
    }
}

pub open spec fn trim_end_spec(s: Seq<char>) -> Seq<char>
    decreases s.len(),
{
    if s.len() > 0 && is_space_char(s.last()) {
        trim_end_spec(s.drop_last())
    } else {
        s
    }
}

/// `s` without leading and trailing whitespace.
pub open spec fn trim_spec(s: Seq<char>) -> Seq<char> {
    trim_start_spec(trim_end_spec(s))
}

pub proof fn lemma_trim_start_idx(s: Seq<char>, a: int)
    requires
        0 <= a <= s.len(),
        forall|k: int| 0 <= k < a ==> is_space_char(#[trigger] s[k]),
        a < s.len() ==> !is_space_char(s[a]),
    ensures
        trim_start_spec(s) == s.skip(a),
    decreases a,
{
    if a == 0 {
        assert(s.skip(0) =~= s);
    } else {
        assert(is_space_char(s[0]));
        let t = s.drop_first();
        assert(forall|k: int| 0 <= k < a - 1 ==> is_space_char(#[trigger] t[k]));
        lemma_trim_start_idx(t, a - 1);
        assert(t.skip(a - 1) =~= s.skip(a));
    }
}

pub proof fn lemma_trim_end_idx(s: Seq<char>, b: int)
    requires
        0 <= b <= s.len(),
        forall|k: int| b <= k < s.len() ==> is_space_char(#[trigger] s[k]),
        b > 0 ==> !is_space_char(s[b - 1]),
    ensures
        trim_end_spec(s) == s.take(b),
    decreases s.len(),
{
    if s.len() > 0 && is_space_char(s.last()) {
        assert(b < s.len());
        let t = s.drop_last();
        assert(forall|k: int| b <= k < t.len() ==> is_space_char(#[trigger] t[k]));
        lemma_trim_end_idx(t, b);
        assert(t.take(b) =~= s.take(b));
    } else {
        assert(b == s.len());
        assert(s.take(b) =~= s);
    }
}

/// Trimming a single leading space off an already-trimmed remainder.
pub proof fn lemma_trim_space_prefix(c: Seq<char>)
    requires
        c.len() > 0 ==> !is_space_char(c[0]) && !is_space_char(c.last()),
    ensures
        trim_spec(sp1() + c) == c,
{
    let s = sp1() + c;
    if c.len() == 0 {
        assert(s =~= seq![' ']);
        assert(s.last() == ' ');
        assert(trim_end_spec(s) == trim_end_spec(s.drop_last()));
        assert(s.drop_last() =~= Seq::<char>::empty());
        assert(trim_spec(s) =~= c);
    } else {
        assert(s.last() == c.last());
        assert(trim_end_spec(s) == s);
        assert(is_space_char(s[0]));
        assert(trim_start_spec(s) == trim_start_spec(s.drop_first()));
        assert(s.drop_first() =~= c);
        assert(trim_start_spec(c) == c);
    }
}

// ===========================================================================
// Comment-marker position
// ===========================================================================

/// A comment starts where a `#` begins a whitespace-delimited token.
pub open spec fn is_comment_start(s: Seq<char>, p: int) -> bool {
    0 <= p < s.len() && s[p] == '#' && (p == 0 || is_space_char(s[p - 1]))
}

pub open spec fn comment_start_from(s: Seq<char>, i: int) -> Option<int>
    decreases s.len() - i,
{
    if i >= s.len() {
        None
    } else if is_comment_start(s, i) {
        Some(i)
    } else {
        comment_start_from(s, i + 1)
    }
}

/// Position of the first token-initial `#` of the line, if any.
pub open spec fn comment_start(s: Seq<char>) -> Option<int> {
    comment_start_from(s, 0)
}

pub proof fn lemma_comment_start_none(s: Seq<char>, i: int)
    requires
        forall|q: int| i <= q < s.len() ==> !is_comment_start(s, q),
    ensures
        comment_start_from(s, i) is None,
    decreases s.len() - i,
{
    if i < s.len() {
        lemma_comment_start_none(s, i + 1);
    }
}

pub proof fn lemma_comment_start_some(s: Seq<char>, i: int, p: int)
    requires
        i <= p,
        is_comment_start(s, p),
        forall|q: int| i <= q < p ==> !is_comment_start(s, q),
    ensures
        comment_start_from(s, i) == Some(p),
    decreases p - i,
{
    if i < p {
        lemma_comment_start_some(s, i + 1, p);
    }
}

// ===========================================================================
// Executable text helpers
// ===========================================================================

/// Character-wise string equality.
pub fn str_eq(a: &str, b: &str) -> (r: bool)
    ensures
        r == (a@ == b@),
{
    let na = a.unicode_len();
    let nb = b.unicode_len();
    if na != nb {
        return false;
    }
    let mut i: usize = 0;
    while i < na
        invariant
            0 <= i <= na,
            na == a@.len(),
            na == b@.len(),
            forall|j: int| 0 <= j < i ==> a@[j] == b@[j],
        decreases na - i,
    {
        if a.get_char(i) != b.get_char(i) {
            return false;
        }
        i += 1;
    }
    proof {
        assert(a@ =~= b@);
    }
    true
}

/// Splits `s` at newline characters, keeping empty segments.
pub fn split_into_lines(s: &str) -> (r: Vec<String>)
    ensures
        r.deep_view() == split_lines(s@),
{
    let n = s.unicode_len();
    let mut r: Vec<String> = Vec::new();
    let mut start: usize = 0;
    proof {
        assert(s@.skip(0) =~= s@);
        assert(r.deep_view() + split_lines(s@) =~= split_lines(s@));
    }
    loop
        invariant
            0 <= start <= n,
            n == s@.len(),
            split_lines(s@) == r.deep_view() + split_lines(s@.skip(start as int)),
        decreases n - start + 1,
    {
        let mut j: usize = start;
        while j < n && s.get_char(j) != '\n'
            invariant
                start <= j <= n,
                n == s@.len(),
                forall|k: int| start <= k < j ==> #[trigger] s@[k] != '\n',
            decreases n - j,
        {
            j += 1;
        }
        let line = String::from_str(s.substring_char(start, j));
        let ghost pre = r.deep_view();
        r.push(line);
        proof {
            assert(r.deep_view() =~= pre.push(line@));
        }
        if j < n {
            proof {
                lemma_split_lines_found(s@, start as int, j as int);
                assert(pre + (seq![s@.subrange(start as int, j as int)] + split_lines(
                    s@.skip(j as int + 1),
                )) =~= pre.push(line@) + split_lines(s@.skip(j as int + 1)));
            }
            start = j + 1;
        } else {
            proof {
                lemma_split_lines_none(s@, start as int);
                assert(pre + seq![s@.subrange(start as int, n as int)] =~= pre.push(line@));
                assert(split_lines(s@) =~= r.deep_view());
            }
            return r;
        }
    }
}

/// The whitespace-separated tokens of a line.
pub fn line_tokens(s: &str) -> (r: Vec<String>)
    ensures
        r.deep_view() == tokens(s@),
{
    let n = s.unicode_len();
    let mut r: Vec<String> = Vec::new();
    let mut i: usize = 0;
    proof {
        assert(s@.skip(0) =~= s@);
    }
    while i < n
        invariant
            0 <= i <= n,
            n == s@.len(),
            tokens(s@) == r.deep_view() + tokens(s@.skip(i as int)),
        decreases n - i,
    {
        if is_space(s.get_char(i)) {
            proof {
                lemma_tokens_skip_space(s@, i as int);
            }
            i += 1;
        } else {
            let mut j: usize = i + 1;
            while j < n && !is_space(s.get_char(j))
                invariant
                    i < j <= n,
                    n == s@.len(),
                    forall|k: int| i <= k < j ==> !is_space_char(#[trigger] s@[k]),
                decreases n - j,
            {
                j += 1;
            }
            let word = String::from_str(s.substring_char(i, j));
            let ghost pre = r.deep_view();
            r.push(word);
            proof {
                lemma_tokens_take_token(s@, i as int, j as int);
                assert(r.deep_view() =~= pre.push(word@));
                assert(pre + (seq![s@.subrange(i as int, j as int)] + tokens(s@.skip(j as int)))
                    =~= pre.push(word@) + tokens(s@.skip(j as int)));
            }
            i = j;
        }
    }
    proof {
        assert(s@.skip(n as int) =~= Seq::<char>::empty());
        assert(tokens(Seq::<char>::empty()) =~= Seq::<Seq<char>>::empty());
        assert(r.deep_view() + Seq::<Seq<char>>::empty() =~= r.deep_view());
    }
    r
}

/// Finds the position of the first token-initial `#`, if any.
pub fn find_comment_start(s: &str) -> (r: Option<usize>)
    ensures
        match r {
            Some(p) => p < s@.len() && comment_start(s@) == Some(p as int),
            None => comment_start(s@) is None,
        },
{
    let n = s.unicode_len();
    let mut i: usize = 0;
    while i < n
        invariant
            0 <= i <= n,
            n == s@.len(),
            forall|q: int| 0 <= q < i ==> !is_comment_start(s@, q),
        decreases n - i,
    {
        if s.get_char(i) == '#' {
            let boundary = if i == 0 {
                true
            } else {
                is_space(s.get_char(i - 1))
            };
            if boundary {
                proof {
                    lemma_comment_start_some(s@, 0, i as int);
                }
                return Some(i);
            }
        }
        i += 1;
    }
    proof {
        lemma_comment_start_none(s@, 0);
    }
    None
}

/// `s` without leading and trailing whitespace.
pub fn trim_str(s: &str) -> (r: String)
    ensures
        r@ == trim_spec(s@),
{
    let n = s.unicode_len();
    let mut b: usize = n;
    while b > 0 && is_space(s.get_char(b - 1))
        invariant
            0 <= b <= n,
            n == s@.len(),
            forall|k: int| b <= k < n ==> is_space_char(#[trigger] s@[k]),
        decreases b,
    {
        b -= 1;
    }
    let mut a: usize = 0;
    while a < b && is_space(s.get_char(a))
        invariant
            0 <= a <= b,
            b <= n,
            n == s@.len(),
            forall|k: int| 0 <= k < a ==> is_space_char(#[trigger] s@[k]),
        decreases b - a,
    {
        a += 1;
    }
    proof {
        lemma_trim_end_idx(s@, b as int);
        let t = s@.take(b as int);
        assert(forall|k: int| 0 <= k < a ==> is_space_char(#[trigger] t[k]));
        lemma_trim_start_idx(t, a as int);
        assert(t.skip(a as int) =~= s@.subrange(a as int, b as int));
    }
    String::from_str(s.substring_char(a, b))
}

// ===========================================================================
// Decimal rendering of resource limits
// ===========================================================================

pub open spec fn digit_char(d: nat) -> char {
    if d == 0 {
        '0'
    } else if d == 1 {
        '1'
    } else if d == 2 {
        '2'
    } else if d == 3 {
        '3'
    } else if d == 4 {
        '4'
    } else if d == 5 {
        '5'
    } else if d == 6 {
        '6'
    } else if d == 7 {
        '7'
    } else if d == 8 {
        '8'
    } else {
        '9'
    }
}

/// The shortest decimal rendering of `n`, most significant digit first.
pub open spec fn dec_str(n: nat) -> Seq<char>
    decreases n,
{
    if n < 10 {
        seq![digit_char(n)]
    } else {
        dec_str(n / 10) + seq![digit_char(n % 10)]
    }
}

fn digit_str(d: u8) -> (r: &'static str)
    requires
        d < 10,
    ensures
        r@ == seq![digit_char(d as nat)],
{
    proof {
        reveal_strlit("0");
        reveal_strlit("1");
        reveal_strlit("2");
        reveal_strlit("3");
        reveal_strlit("4");
        reveal_strlit("5");
        reveal_strlit("6");
        reveal_strlit("7");
        reveal_strlit("8");
        reveal_strlit("9");
    }
    let r = match d {
        0 => "0",
        1 => "1",
        2 => "2",
        3 => "3",
        4 => "4",
        5 => "5",
        6 => "6",
        7 => "7",
        8 => "8",
        _ => "9",
    };
    proof {
        assert(r@ =~= seq![digit_char(d as nat)]);
    }
    r
}

/// Appends the decimal rendering of `n` to `out`.
pub fn push_decimal(out: &mut String, n: u8)
    ensures
        final(out)@ == old(out)@ + dec_str(n as nat),
    decreases n,
{
    if n < 10 {
        out.append(digit_str(n));
    } else {
        push_decimal(out, n / 10);
        out.append(digit_str(n % 10));
        proof {
            assert(old(out)@ + dec_str((n / 10) as nat) + seq![digit_char((n % 10) as nat)]
                =~= old(out)@ + dec_str(n as nat));
        }
    }
}

/// The decimal rendering of `n` as a fresh string.
pub fn decimal_string(n: u8) -> (r: String)
    ensures
        r@ == dec_str(n as nat),
{
    let mut s = String::new();
    push_decimal(&mut s, n);
    proof {
        assert(Seq::<char>::empty() + dec_str(n as nat) =~= dec_str(n as nat));
    }
    s
}

// ===========================================================================
// Parsing small decimal numbers from user input
// ===========================================================================

pub open spec fn is_digit_char(c: char) -> bool {
    '0' as u32 <= c as u32 && c as u32 <= '9' as u32
}

pub open spec fn digit_val(c: char) -> nat {
    if is_digit_char(c) {
        (c as u32 - '0' as u32) as nat
    } else {
        0
    }
}

/// The numeric value of a digit string, most significant digit first.
pub open spec fn dec_value(s: Seq<char>) -> nat
    decreases s.len(),
{
    if s.len() == 0 {
        0
    } else {
        dec_value(s.drop_last()) * 10 + digit_val(s.last())
    }
}

/// The input without one optional leading plus sign.
pub open spec fn unsigned_body(s: Seq<char>) -> Seq<char> {
    if s.len() > 0 && s[0] == '+' {
        s.drop_first()
    } else {
        s
    }
}

/// What `u8` parsing accepts: an optional plus sign, then only digits,
/// denoting a value of at most 255.
pub open spec fn parse_u8_spec(s: Seq<char>) -> Option<u8> {
    let t = unsigned_body(s);
    if t.len() > 0 && (forall|j: int| 0 <= j < t.len() ==> is_digit_char(#[trigger] t[j]))
        && dec_value(t) <= 255 {
        Some(dec_value(t) as u8)
    } else {
        None
    }
}

/// A longer digit string never has a smaller value.
proof fn lemma_dec_value_take_le(s: Seq<char>, m: int)
    requires
        0 <= m <= s.len(),
    ensures
        dec_value(s.take(m)) <= dec_value(s),
    decreases s.len() - m,
{
    if m < s.len() {
        lemma_dec_value_take_le(s, m + 1);
        assert(s.take(m + 1).drop_last() =~= s.take(m));
        assert(dec_value(s.take(m)) <= dec_value(s.take(m + 1)));
    } else {
        assert(s.take(m) =~= s);
    }
}

/// Parses an unsigned decimal number that fits in a `u8`.
pub fn parse_u8(s: &str) -> (r: Option<u8>)
    ensures
        r == parse_u8_spec(s@),
{
    let n = s.unicode_len();
    let mut i: usize = 0;
    if n > 0 && s.get_char(0) == '+' {
        i = 1;
    }
    let ghost t = unsigned_body(s@);
    proof {
        assert(t =~= s@.subrange(i as int, n as int));
    }
    if i == n {
        return None;
    }
    let mut acc: u16 = 0;
    let mut k: usize = i;
    while k < n
        invariant
            i <= k <= n,
            i <= 1,
            n == s@.len(),
            t == unsigned_body(s@),
            t == s@.subrange(i as int, n as int),
            acc <= 255,
            acc as nat == dec_value(s@.subrange(i as int, k as int)),
            forall|j: int| i <= j < k ==> is_digit_char(#[trigger] s@[j]),
        decreases n - k,
    {
        let c = s.get_char(k);
        let u = c as u32;
        if u < '0' as u32 || u > '9' as u32 {
            proof {
                assert(!is_digit_char(t[k - i]));
            }
            return None;
        }
        let d: u16 = (u - '0' as u32) as u16;
        let v: u16 = acc * 10 + d;
        proof {
            assert(s@.subrange(i as int, k as int + 1).drop_last() =~= s@.subrange(
                i as int,
                k as int,
            ));
            assert(dec_value(s@.subrange(i as int, k as int + 1)) == acc as nat * 10 + digit_val(
                s@[k as int],
            ));
        }
        if v > 255 {
            proof {
                assert(s@.subrange(i as int, k as int + 1) =~= t.take(k - i + 1));
                lemma_dec_value_take_le(t, k - i + 1);
                assert(dec_value(t) > 255);
            }
            return None;
        }
        acc = v;
        k += 1;
    }
    proof {
        assert(s@.subrange(i as int, n as int) =~= t);
        assert(forall|j: int| 0 <= j < t.len() ==> is_digit_char(#[trigger] t[j]));
        assert(parse_u8_spec(s@) == Some(acc as u8));
    }
    Some(acc as u8)
}

// ===========================================================================
// Substring search
// ===========================================================================

pub open spec fn contains_seq(hay: Seq<char>, needle: Seq<char>) -> bool {
    exists|i: int|
        0 <= i && i + needle.len() <= hay.len() && #[trigger] hay.subrange(i, i + needle.len())
            == needle
}

fn match_at(hay: &str, i: usize, needle: &str) -> (r: bool)
    requires
        i + needle@.len() <= hay@.len(),
    ensures
        r == (hay@.subrange(i as int, i as int + needle@.len() as int) == needle@),
{
    let nh = hay.unicode_len();
    let nn = needle.unicode_len();
    let mut j: usize = 0;
    while j < nn
        invariant
            0 <= j <= nn,
            nn == needle@.len(),
            nh == hay@.len(),
            i + nn <= nh,
            forall|l: int| 0 <= l < j ==> hay@[i + l] == needle@[l],
        decreases nn - j,
    {
        if hay.get_char(i + j) != needle.get_char(j) {
            proof {
                let sub = hay@.subrange(i as int, i as int + nn as int);
                assert(sub[j as int] != needle@[j as int]);
            }
            return false;
        }
        j += 1;
    }
    proof {
        assert(hay@.subrange(i as int, i as int + nn as int) =~= needle@);
    }
    true
}

/// Whether `needle` occurs contiguously inside `hay`.
pub fn contains_substring(hay: &str, needle: &str) -> (r: bool)
    ensures
        r == contains_seq(hay@, needle@),
{
    let nh = hay.unicode_len();
    let nn = needle.unicode_len();
    if nn > nh {
        return false;
    }
    let last = nh - nn;
    let mut i: usize = 0;
    loop
        invariant
            0 <= i <= last,
            nn <= nh,
            last == nh - nn,
            nh == hay@.len(),
            nn == needle@.len(),
            forall|k: int|
                0 <= k < i ==> #[trigger] hay@.subrange(k, k + needle@.len() as int) != needle@,
        decreases last - i,
    {
        if match_at(hay, i, needle) {
            return true;
        }
        if i == last {
            proof {
                assert(forall|k: int|
                    0 <= k && k + needle@.len() <= hay@.len() ==> #[trigger] hay@.subrange(
                        k,
                        k + needle@.len() as int,
                    ) != needle@);
            }
            return false;
        }
        i += 1;
    }
}

} // verus!
