//! Removal of `//` and `/* ... */` comments from JSONC text.
//!
//! The scanner walks the input once, tracking whether it stands inside a
//! double-quoted string (the quote flag) and whether it stands inside a
//! comment (the scan state).  Text inside quotes is copied verbatim; comment
//! text is dropped; the newline that ends a line comment is kept, so that
//! line numbers of the remaining text stay stable.
//!
//! The quote flag toggles on every `"`, even one met inside a comment; it
//! does not treat `\"` specially.  Both quirks are deliberate, and the spec
//! functions below state them.

use vstd::prelude::*;
use vstd::std_specs::iter::IteratorSpec;

verus! {

/// The comment-tracking mode of the scanner at one position.
#[derive(Clone, Copy)]
pub enum ScanState {
    /// Outside any comment.
    Normal,
    /// Inside a `// ...` comment, up to the next newline.
    LineComment,
    /// Inside a `/* ... */` comment, up to the closing `*/`.
    BlockComment,
}

/// What remains to be emitted when the scan stands at position `i` of `s`
/// with the given scan state and quote flag.
pub open spec fn strip_from(s: Seq<char>, i: int, state: ScanState, in_quotes: bool) -> Seq<char>
    decreases s.len() - i,
{
    if i < 0 || i >= s.len() {
        Seq::empty()
    } else {
        let c = s[i];
        let q = if c == '"' { !in_quotes } else { in_quotes };
        if q {
            seq![c] + strip_from(s, i + 1, state, q)
        } else {
            match state {
                ScanState::Normal => {
                    if c == '/' && i + 1 < s.len() && s[i + 1] == '/' {
                        strip_from(s, i + 2, ScanState::LineComment, q)
                    } else if c == '/' && i + 1 < s.len() && s[i + 1] == '*' {
                        strip_from(s, i + 2, ScanState::BlockComment, q)
                    } else {
                        seq![c] + strip_from(s, i + 1, ScanState::Normal, q)
                    }
                },
                ScanState::LineComment => {
                    if c == '\n' {
                        seq![c] + strip_from(s, i + 1, ScanState::Normal, q)
                    } else {
                        strip_from(s, i + 1, ScanState::LineComment, q)
                    }
                },
                ScanState::BlockComment => {
                    if c == '*' && i + 1 < s.len() && s[i + 1] == '/' {
                        strip_from(s, i + 2, ScanState::Normal, q)
                    } else {
                        strip_from(s, i + 1, ScanState::BlockComment, q)
                    }
                },
            }
        }
    }
}

/// The comment-stripped form of `s`: the scan of the whole text, started
/// outside any comment and outside any string.
pub open spec fn strip_spec(s: Seq<char>) -> Seq<char> {
    strip_from(s, 0, ScanState::Normal, false)
}

/// Holds when a fresh scan of `t` begun at position `i` with quote flag `q`
/// meets no `//` or `/*` outside quotes: such a text passes through the
/// stripper unchanged.
pub open spec fn no_comment_start(t: Seq<char>, i: int, q: bool) -> bool
    decreases t.len() - i,
{
    if i < 0 || i >= t.len() {
        true
    } else {
        let c = t[i];
        let q2 = if c == '"' { !q } else { q };
        if q2 {
            no_comment_start(t, i + 1, q2)
        } else {
            !(c == '/' && i + 1 < t.len() && (t[i + 1] == '/' || t[i + 1] == '*'))
                && no_comment_start(t, i + 1, q2)
        }
    }
}

/// Holds when every `"` of `s` from position `i` on is met while the scan
/// stands outside any comment.  The quote flag toggles on every `"`, even
/// one inside a comment; on texts where that happens, the string tracking
/// of a second scan can disagree with the first one.
pub open spec fn quotes_outside_comments_from(
    s: Seq<char>,
    i: int,
    state: ScanState,
    in_quotes: bool,
) -> bool
    decreases s.len() - i,
{
    if i < 0 || i >= s.len() {
        true
    } else {
        let c = s[i];
        let q = if c == '"' { !in_quotes } else { in_quotes };
        (c == '"' ==> state is Normal) && if q {
            quotes_outside_comments_from(s, i + 1, state, q)
        } else {
            match state {
                ScanState::Normal => {
                    if c == '/' && i + 1 < s.len() && s[i + 1] == '/' {
                        quotes_outside_comments_from(s, i + 2, ScanState::LineComment, q)
                    } else if c == '/' && i + 1 < s.len() && s[i + 1] == '*' {
                        quotes_outside_comments_from(s, i + 2, ScanState::BlockComment, q)
                    } else {
                        quotes_outside_comments_from(s, i + 1, ScanState::Normal, q)
                    }
                },
                ScanState::LineComment => {
                    if c == '\n' {
                        quotes_outside_comments_from(s, i + 1, ScanState::Normal, q)
                    } else {
                        quotes_outside_comments_from(s, i + 1, ScanState::LineComment, q)
                    }
                },
                ScanState::BlockComment => {
                    if c == '*' && i + 1 < s.len() && s[i + 1] == '/' {
                        quotes_outside_comments_from(s, i + 2, ScanState::Normal, q)
                    } else {
                        quotes_outside_comments_from(s, i + 1, ScanState::BlockComment, q)
                    }
                },
            }
        }
    }
}

/// Holds when every `"` of `s` is met while the scan stands outside any
/// comment.
pub open spec fn quotes_outside_comments(s: Seq<char>) -> bool {
    quotes_outside_comments_from(s, 0, ScanState::Normal, false)
}

/// The number of occurrences of `c` in `t`.
pub open spec fn count_char(t: Seq<char>, c: char) -> nat
    decreases t.len(),
{
    if t.len() == 0 {
        0
    } else {
        (if t[0] == c {
            1nat
        } else {
            0nat
        }) + count_char(t.drop_first(), c)
    }
}

proof fn lemma_count_char_cons(x: char, t: Seq<char>, c: char)
    ensures
        count_char(seq![x] + t, c) == (if x == c {
            1nat
        } else {
            0nat
        }) + count_char(t, c),
{
    assert((seq![x] + t).drop_first() =~= t);
}

/// `no_comment_start` shifted across one leading character.
proof fn lemma_ncs_shift(x: char, t: Seq<char>, j: int, q: bool)
    requires
        0 <= j,
    ensures
        no_comment_start(seq![x] + t, j + 1, q) == no_comment_start(t, j, q),
    decreases t.len() - j,
{
    let u = seq![x] + t;
    if j < t.len() {
        assert(u[j + 1] == t[j]);
        if j + 1 < t.len() {
            assert(u[j + 2] == t[j + 1]);
        }
        let q2 = if t[j] == '"' {
            !q
        } else {
            q
        };
        lemma_ncs_shift(x, t, j + 1, q2);
    }
}

/// A text in which a fresh scan meets no comment opening passes through the
/// stripper unchanged.
proof fn lemma_plain_strip_identity(t: Seq<char>, i: int, q: bool)
    requires
        0 <= i <= t.len(),
        no_comment_start(t, i, q),
    ensures
        strip_from(t, i, ScanState::Normal, q) == t.subrange(i, t.len() as int),
    decreases t.len() - i,
{
    if i == t.len() {
        assert(strip_from(t, i, ScanState::Normal, q) =~= t.subrange(i, t.len() as int));
    } else {
        let c = t[i];
        let q2 = if c == '"' {
            !q
        } else {
            q
        };
        lemma_plain_strip_identity(t, i + 1, q2);
        assert(strip_from(t, i, ScanState::Normal, q) =~= t.subrange(i, t.len() as int)) by {
            assert(seq![c] + t.subrange(i + 1, t.len() as int) =~= t.subrange(i, t.len() as int));
        }
    }
}

/// The output of the stripper contains no comment opening outside quotes,
/// provided every `"` of the input was met outside a comment.
proof fn lemma_strip_no_comment_start(s: Seq<char>, i: int, state: ScanState, q: bool)
    requires
        0 <= i,
        quotes_outside_comments_from(s, i, state, q),
        q ==> state is Normal,
    ensures
        no_comment_start(strip_from(s, i, state, q), 0, q),
    decreases s.len() - i,
{
    if i < s.len() {
        let c = s[i];
        let q2 = if c == '"' {
            !q
        } else {
            q
        };
        if q2 {
            lemma_strip_no_comment_start(s, i + 1, state, q2);
            lemma_ncs_shift(c, strip_from(s, i + 1, state, q2), 0, q2);
        } else {
            match state {
                ScanState::Normal => {
                    if c == '/' && i + 1 < s.len() && s[i + 1] == '/' {
                        lemma_strip_no_comment_start(s, i + 2, ScanState::LineComment, false);
                    } else if c == '/' && i + 1 < s.len() && s[i + 1] == '*' {
                        lemma_strip_no_comment_start(s, i + 2, ScanState::BlockComment, false);
                    } else {
                        let r = strip_from(s, i + 1, ScanState::Normal, false);
                        lemma_strip_no_comment_start(s, i + 1, ScanState::Normal, false);
                        lemma_ncs_shift(c, r, 0, false);
                        if c == '/' && i + 1 < s.len() {
                            let c2 = s[i + 1];
                            assert(c2 != '/' && c2 != '*');
                            assert(r.len() > 0 ==> r[0] == c2);
                        }
                    }
                },
                ScanState::LineComment => {
                    if c == '\n' {
                        let r = strip_from(s, i + 1, ScanState::Normal, false);
                        lemma_strip_no_comment_start(s, i + 1, ScanState::Normal, false);
                        lemma_ncs_shift(c, r, 0, false);
                    } else {
                        lemma_strip_no_comment_start(s, i + 1, ScanState::LineComment, false);
                    }
                },
                ScanState::BlockComment => {
                    if c == '*' && i + 1 < s.len() && s[i + 1] == '/' {
                        lemma_strip_no_comment_start(s, i + 2, ScanState::Normal, false);
                    } else {
                        lemma_strip_no_comment_start(s, i + 1, ScanState::BlockComment, false);
                    }
                },
            }
        }
    }
}

/// Law: on a text with no `"`, no `//` and no `/*`, stripping changes
/// nothing.
pub proof fn lemma_strip_identity(s: Seq<char>)
    requires
        forall|m: int| 0 <= m < s.len() ==> s[m] != '"',
        forall|m: int|
            0 <= m < s.len() - 1 ==> !((#[trigger] s[m]) == '/' && (s[m + 1] == '/' || s[m + 1]
                == '*')),
    ensures
        strip_spec(s) == s,
{
    assert forall|i: int| 0 <= i implies no_comment_start(s, i, false) by {
        lemma_plain_text_ncs(s, i);
    }
    lemma_plain_strip_identity(s, 0, false);
    assert(s.subrange(0, s.len() as int) =~= s);
}

proof fn lemma_plain_text_ncs(s: Seq<char>, i: int)
    requires
        0 <= i,
        forall|m: int| 0 <= m < s.len() ==> s[m] != '"',
        forall|m: int|
            0 <= m < s.len() - 1 ==> !((#[trigger] s[m]) == '/' && (s[m + 1] == '/' || s[m + 1]
                == '*')),
    ensures
        no_comment_start(s, i, false),
    decreases s.len() - i,
{
    if i < s.len() {
        lemma_plain_text_ncs(s, i + 1);
    }
}

/// While the quote flag is set and no `"` stands in `s[k..j)`, the scan
/// copies that range verbatim and changes neither state nor flag.
proof fn lemma_in_quotes_run(s: Seq<char>, k: int, j: int, state: ScanState)
    requires
        0 <= k <= j <= s.len(),
        forall|m: int| k <= m < j ==> s[m] != '"',
    ensures
        strip_from(s, k, state, true) == s.subrange(k, j) + strip_from(s, j, state, true),
    decreases j - k,
{
    if k == j {
        assert(s.subrange(k, j) + strip_from(s, j, state, true) =~= strip_from(s, k, state, true));
    } else {
        lemma_in_quotes_run(s, k + 1, j, state);
        assert(seq![s[k]] + (s.subrange(k + 1, j) + strip_from(s, j, state, true)) =~= s.subrange(
            k,
            j,
        ) + strip_from(s, j, state, true));
    }
}

/// Law: a double-quoted string met outside any comment is copied to the
/// output unchanged, comment markers inside it included.  `i` and `j` are
/// the positions of its two quotes; no `"` stands between them, so the law
/// does not speak of strings with escaped quotes.
pub proof fn lemma_quoted_string_preserved(s: Seq<char>, i: int, j: int)
    requires
        0 <= i < j < s.len(),
        s[i] == '"',
        s[j] == '"',
        forall|m: int| i < m < j ==> s[m] != '"',
    ensures
        strip_from(s, i, ScanState::Normal, false) == s.subrange(i, j + 1) + strip_from(
            s,
            j + 1,
            ScanState::Normal,
            false,
        ),
{
    lemma_in_quotes_run(s, i + 1, j, ScanState::Normal);
    let rest = strip_from(s, j + 1, ScanState::Normal, false);
    assert(strip_from(s, j, ScanState::Normal, true) == seq![s[j]] + rest);
    assert(seq![s[i]] + (s.subrange(i + 1, j) + (seq![s[j]] + rest)) =~= s.subrange(i, j + 1)
        + rest);
}

proof fn lemma_strip_count_le(s: Seq<char>, i: int, state: ScanState, q: bool, c: char)
    requires
        0 <= i <= s.len(),
    ensures
        count_char(strip_from(s, i, state, q), c) <= count_char(
            s.subrange(i, s.len() as int),
            c,
        ),
    decreases s.len() - i,
{
    let n = s.len() as int;
    if i < n {
        assert(s.subrange(i, n) =~= seq![s[i]] + s.subrange(i + 1, n));
        lemma_count_char_cons(s[i], s.subrange(i + 1, n), c);
        let ci = s[i];
        let q2 = if ci == '"' {
            !q
        } else {
            q
        };
        if q2 {
            lemma_strip_count_le(s, i + 1, state, q2, c);
            lemma_count_char_cons(ci, strip_from(s, i + 1, state, q2), c);
        } else {
            match state {
                ScanState::Normal => {
                    if ci == '/' && i + 1 < n && (s[i + 1] == '/' || s[i + 1] == '*') {
                        assert(s.subrange(i + 1, n) =~= seq![s[i + 1]] + s.subrange(i + 2, n));
                        lemma_count_char_cons(s[i + 1], s.subrange(i + 2, n), c);
                        if s[i + 1] == '/' {
                            lemma_strip_count_le(s, i + 2, ScanState::LineComment, false, c);
                        } else {
                            lemma_strip_count_le(s, i + 2, ScanState::BlockComment, false, c);
                        }
                    } else {
                        lemma_strip_count_le(s, i + 1, ScanState::Normal, false, c);
                        lemma_count_char_cons(ci, strip_from(s, i + 1, ScanState::Normal, false), c);
                    }
                },
                ScanState::LineComment => {
                    lemma_strip_count_le(s, i + 1, if ci == '\n' {
                        ScanState::Normal
                    } else {
                        ScanState::LineComment
                    }, false, c);
                    if ci == '\n' {
                        lemma_count_char_cons(
                            ci,
                            strip_from(s, i + 1, ScanState::Normal, false),
                            c,
                        );
                    }
                },
                ScanState::BlockComment => {
                    if ci == '*' && i + 1 < n && s[i + 1] == '/' {
                        assert(s.subrange(i + 1, n) =~= seq![s[i + 1]] + s.subrange(i + 2, n));
                        lemma_count_char_cons(s[i + 1], s.subrange(i + 2, n), c);
                        lemma_strip_count_le(s, i + 2, ScanState::Normal, false, c);
                    } else {
                        lemma_strip_count_le(s, i + 1, ScanState::BlockComment, false, c);
                    }
                },
            }
        }
    }
}

/// Law: stripping never adds a newline; at most it removes those inside
/// block comments, while the newline that ends a line comment is kept by
/// the transition itself.
pub proof fn lemma_newlines_not_increased(s: Seq<char>)
    ensures
        count_char(strip_spec(s), '\n') <= count_char(s, '\n'),
{
    lemma_strip_count_le(s, 0, ScanState::Normal, false, '\n');
    assert(s.subrange(0, s.len() as int) =~= s);
}

/// Holds when the scan of `s` from position `i` on never enters a block
/// comment.  Only a block comment can swallow a newline.
pub open spec fn no_block_comment_from(
    s: Seq<char>,
    i: int,
    state: ScanState,
    in_quotes: bool,
) -> bool
    decreases s.len() - i,
{
    if i < 0 || i >= s.len() {
        true
    } else {
        let c = s[i];
        let q = if c == '"' { !in_quotes } else { in_quotes };
        if q {
            no_block_comment_from(s, i + 1, state, q)
        } else {
            match state {
                ScanState::Normal => {
                    if c == '/' && i + 1 < s.len() && s[i + 1] == '/' {
                        no_block_comment_from(s, i + 2, ScanState::LineComment, q)
                    } else {
                        !(c == '/' && i + 1 < s.len() && s[i + 1] == '*')
                            && no_block_comment_from(s, i + 1, ScanState::Normal, q)
                    }
                },
                ScanState::LineComment => {
                    if c == '\n' {
                        no_block_comment_from(s, i + 1, ScanState::Normal, q)
                    } else {
                        no_block_comment_from(s, i + 1, ScanState::LineComment, q)
                    }
                },
                ScanState::BlockComment => false,
            }
        }
    }
}

/// Holds when the scan of `s` never enters a block comment.
pub open spec fn no_block_comments(s: Seq<char>) -> bool {
    no_block_comment_from(s, 0, ScanState::Normal, false)
}

proof fn lemma_strip_count_newlines_eq(s: Seq<char>, i: int, state: ScanState, q: bool)
    requires
        0 <= i <= s.len(),
        no_block_comment_from(s, i, state, q),
    ensures
        count_char(strip_from(s, i, state, q), '\n') == count_char(
            s.subrange(i, s.len() as int),
            '\n',
        ),
    decreases s.len() - i,
{
    let n = s.len() as int;
    if i < n {
        assert(s.subrange(i, n) =~= seq![s[i]] + s.subrange(i + 1, n));
        lemma_count_char_cons(s[i], s.subrange(i + 1, n), '\n');
        let ci = s[i];
        let q2 = if ci == '"' {
            !q
        } else {
            q
        };
        if q2 {
            lemma_strip_count_newlines_eq(s, i + 1, state, q2);
            lemma_count_char_cons(ci, strip_from(s, i + 1, state, q2), '\n');
        } else {
            match state {
                ScanState::Normal => {
                    if ci == '/' && i + 1 < n && s[i + 1] == '/' {
                        assert(s.subrange(i + 1, n) =~= seq![s[i + 1]] + s.subrange(i + 2, n));
                        lemma_count_char_cons(s[i + 1], s.subrange(i + 2, n), '\n');
                        lemma_strip_count_newlines_eq(s, i + 2, ScanState::LineComment, false);
                    } else {
                        lemma_strip_count_newlines_eq(s, i + 1, ScanState::Normal, false);
                        lemma_count_char_cons(
                            ci,
                            strip_from(s, i + 1, ScanState::Normal, false),
                            '\n',
                        );
                    }
                },
                ScanState::LineComment => {
                    if ci == '\n' {
                        lemma_strip_count_newlines_eq(s, i + 1, ScanState::Normal, false);
                        lemma_count_char_cons(
                            ci,
                            strip_from(s, i + 1, ScanState::Normal, false),
                            '\n',
                        );
                    } else {
                        lemma_strip_count_newlines_eq(s, i + 1, ScanState::LineComment, false);
                    }
                },
                ScanState::BlockComment => {
                    assert(false);
                },
            }
        }
    }
}

/// Law: on a text whose scan meets no block comment, stripping keeps every
/// newline; in particular the newline that ends each line comment is kept.
pub proof fn lemma_newlines_preserved_without_block_comments(s: Seq<char>)
    requires
        no_block_comments(s),
    ensures
        count_char(strip_spec(s), '\n') == count_char(s, '\n'),
{
    lemma_strip_count_newlines_eq(s, 0, ScanState::Normal, false);
    assert(s.subrange(0, s.len() as int) =~= s);
}

/// Law: stripping is idempotent on texts whose `"` characters all stand
/// outside comments.  On other texts the unconditional quote toggle can
/// leave a first pass's output with an unquoted comment marker that a
/// second pass would remove, so those texts are left out.
pub proof fn lemma_strip_idempotent(s: Seq<char>)
    requires
        quotes_outside_comments(s),
    ensures
        strip_spec(strip_spec(s)) == strip_spec(s),
{
    let out = strip_spec(s);
    lemma_strip_no_comment_start(s, 0, ScanState::Normal, false);
    lemma_plain_strip_identity(out, 0, false);
    assert(out.subrange(0, out.len() as int) =~= out);
}

/// Relies on `String::push`: appends the one character `c` to `s`.
#[verifier::external_body]
pub(crate) fn push_char(s: &mut String, c: char)
    ensures
        final(s)@ == old(s)@.push(c),
{
    s.push(c);
}

/// The characters of `s`, as a vector.
fn chars_of(s: &str) -> (r: Vec<char>)
    ensures
        r@ == s@,
{
    let mut it = s.chars();
    let mut r: Vec<char> = Vec::new();
    loop
        invariant
            it.obeys_prophetic_iter_laws(),
            it.decrease() is Some,
            r@ + it.remaining() == s@,
        decreases it.decrease()->0,
    {
        match it.next() {
            Some(c) => {
                r.push(c);
                proof {
                    assert(r@ + it.remaining() =~= s@);
                }
            },
            None => {
                proof {
                    assert(r@ =~= s@);
                }
                return r;
            },
        }
    }
}

/// Removes `//` and `/* ... */` comments from `input`, leaving text inside
/// double-quoted strings untouched and keeping every newline that ends a
/// line comment.
pub fn remove_jsonc_comments(input: &str) -> (result: String)
    ensures
        result@ == strip_spec(input@),
{
    let chars = chars_of(input);
    let n = chars.len();
    let mut result = String::new();
    let mut in_quotes = false;
    let mut state = ScanState::Normal;
    let mut i: usize = 0;
    while i < n
        invariant
            chars@ == input@,
            n == chars@.len(),
            i <= n,
            strip_spec(input@) == result@ + strip_from(input@, i as int, state, in_quotes),
        decreases n - i,
    {
        let ghost prev: Seq<char> = result@;
        let ghost gi: int = i as int;
        let ghost gstate = state;
        let ghost gq = in_quotes;
        let c = chars[i];
        if c == '"' {
            in_quotes = !in_quotes;
        }
        if in_quotes {
            push_char(&mut result, c);
            i = i + 1;
        } else {
            match state {
                ScanState::Normal => {
                    if c == '/' {
                        if i + 1 < n && chars[i + 1] == '/' {
                            state = ScanState::LineComment;
                            i = i + 2;
                        } else if i + 1 < n && chars[i + 1] == '*' {
                            state = ScanState::BlockComment;
                            i = i + 2;
                        } else {
                            push_char(&mut result, c);
                            i = i + 1;
                        }
                    } else {
                        push_char(&mut result, c);
                        i = i + 1;
                    }
                },
                ScanState::LineComment => {
                    if c == '\n' {
                        push_char(&mut result, c);
                        state = ScanState::Normal;
                    }
                    i = i + 1;
                },
                ScanState::BlockComment => {
                    if c == '*' && i + 1 < n && chars[i + 1] == '/' {
                        state = ScanState::Normal;
                        i = i + 2;
                    } else {
                        i = i + 1;
                    }
                },
            }
        }
        proof {
            let rest = strip_from(input@, i as int, state, in_quotes);
            assert(result@ + rest == prev + strip_from(input@, gi, gstate, gq)) by {
                assert(prev + (seq![c] + rest) =~= prev.push(c) + rest);
            }
        }
    }
    result
}

} // verus!
