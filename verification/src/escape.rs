use crate::text::{chars_of, replace, replace_all, starts_with, string_of};
use vstd::prelude::*;

verus! {

/// Header text as it travels on the wire: every backslash is doubled first,
/// then carriage return, line feed and colon are each replaced by a backslash
/// and a letter (`r`, `n`, `c`).
pub open spec fn escaped(s: Seq<char>) -> Seq<char> {
    let s1 = replace_all(s, seq!['\\'], seq!['\\', '\\']);
    let s2 = replace_all(s1, seq!['\r'], seq!['\\', 'r']);
    let s3 = replace_all(s2, seq!['\n'], seq!['\\', 'n']);
    replace_all(s3, seq![':'], seq!['\\', 'c'])
}

/// Header text as it is read off the wire: the four two-character sequences
/// are replaced one after the other, `\c` first, then `\\`, `\r` and `\n`.
pub open spec fn unescaped(s: Seq<char>) -> Seq<char> {
    let s1 = replace_all(s, seq!['\\', 'c'], seq![':']);
    let s2 = replace_all(s1, seq!['\\', '\\'], seq!['\\']);
    let s3 = replace_all(s2, seq!['\\', 'r'], seq!['\r']);
    replace_all(s3, seq!['\\', 'n'], seq!['\n'])
}

/// Whether `c` is one of the four characters that escaping rewrites.
pub open spec fn is_special(c: char) -> bool {
    c == '\\' || c == '\r' || c == '\n' || c == ':'
}

/// The letter that follows the backslash in the escape sequence of `c`.
pub open spec fn letter(c: char) -> char {
    if c == '\\' {
        '\\'
    } else if c == '\r' {
        'r'
    } else if c == '\n' {
        'n'
    } else {
        'c'
    }
}

/// Text in which no backslash is directly followed by `c`, `r` or `n`. On
/// such text, and on no other, the one-after-the-other replacements of
/// `unescaped` take back what `escaped` did. A backslash before one of those
/// letters is doubled on the way out, and on the way in its second half reads
/// as the start of an escape sequence: `\c` goes out as `\\c` and comes back
/// as `\:`.
pub open spec fn unambiguous(s: Seq<char>) -> bool {
    forall|i: int|
        0 <= i < s.len() - 1 && #[trigger] s[i] == '\\' ==> s[i + 1] != 'c' && s[i + 1] != 'r'
            && s[i + 1] != 'n'
}

/// How one character is written while the specials in `on` are escaped.
spec fn token(c: char, on: Set<char>) -> Seq<char> {
    if is_special(c) && on.contains(c) {
        seq!['\\', letter(c)]
    } else {
        seq![c]
    }
}

/// How a text is written while the specials in `on` are escaped.
spec fn tokens(s: Seq<char>, on: Set<char>) -> Seq<char>
    decreases s.len(),
{
    if s.len() == 0 {
        s
    } else {
        token(s[0], on) + tokens(s.skip(1), on)
    }
}

proof fn lemma_tokens_none(s: Seq<char>)
    ensures
        tokens(s, Set::empty()) == s,
    decreases s.len(),
{
    if s.len() > 0 {
        lemma_tokens_none(s.skip(1));
        assert(seq![s[0]] + s.skip(1) =~= s);
    }
}

/// The first character of a written text is a backslash where the text starts
/// with an escaped special, and the text's own first character otherwise.
proof fn lemma_tokens_head(s: Seq<char>, on: Set<char>)
    requires
        s.len() > 0,
    ensures
        tokens(s, on).len() > 0,
        tokens(s, on)[0] == (if is_special(s[0]) && on.contains(s[0]) {
            '\\'
        } else {
            s[0]
        }),
{
}

/// Replacing the special `x` by its escape sequence turns the text written
/// under `on` into the text written under `on` with `x` added. The backslash
/// must go first, or the backslashes of sequences already there are doubled.
proof fn lemma_escape_step(s: Seq<char>, on: Set<char>, x: char)
    requires
        is_special(x),
        !on.contains(x),
        x == '\\' ==> on == Set::<char>::empty(),
    ensures
        replace_all(tokens(s, on), seq![x], seq!['\\', letter(x)]) == tokens(s, on.insert(x)),
    decreases s.len(),
{
    let pat = seq![x];
    let to = seq!['\\', letter(x)];
    if s.len() > 0 {
        let c = s[0];
        let rest = tokens(s.skip(1), on);
        let whole = tokens(s, on);
        lemma_escape_step(s.skip(1), on, x);
        if is_special(c) && on.contains(c) {
            let tail = seq![letter(c)] + rest;
            assert(whole.skip(1) =~= tail);
            assert(tail.skip(1) =~= rest);
            assert(!starts_with(whole, pat)) by {
                assert(whole.subrange(0, 1)[0] == '\\');
            }
            assert(!starts_with(tail, pat)) by {
                assert(tail.subrange(0, 1)[0] == letter(c));
            }
            assert(replace_all(tail, pat, to) == seq![letter(c)] + replace_all(rest, pat, to));
            assert(seq!['\\'] + (seq![letter(c)] + replace_all(rest, pat, to)) =~= seq![
                '\\',
                letter(c),
            ] + replace_all(rest, pat, to));
        } else {
            assert(whole.skip(1) =~= rest);
            if c == x {
                assert(whole.subrange(0, 1) =~= pat);
            } else {
                assert(!starts_with(whole, pat)) by {
                    assert(whole.subrange(0, 1)[0] == c);
                }
            }
        }
    }
}

/// Whether `rest` may stand behind the written text `s` while the escape
/// sequence of `x` is replaced: a backslash at the end of `s` and the first
/// character of `rest` do not make that sequence between them.
spec fn settles(s: Seq<char>, x: char, rest: Seq<char>) -> bool {
    s.len() > 0 && s.last() == '\\' && x != '\\' && rest.len() > 0 ==> rest[0] != letter(x)
}

/// Replacing the escape sequence of the special `x` by `x` turns the text
/// written under `on` into the text written under `on` without `x`, as long as
/// no backslash of the text stands before a letter of an escape sequence; and
/// what stands behind the written text is replaced by itself.
proof fn lemma_unescape_step(s: Seq<char>, on: Set<char>, x: char, rest: Seq<char>)
    requires
        is_special(x),
        on.contains(x),
        unambiguous(s),
        settles(s, x, rest),
    ensures
        replace_all(tokens(s, on) + rest, seq!['\\', letter(x)], seq![x]) == tokens(
            s,
            on.remove(x),
        ) + replace_all(rest, seq!['\\', letter(x)], seq![x]),
    decreases s.len(),
{
    let pat = seq!['\\', letter(x)];
    let to = seq![x];
    let done = replace_all(rest, pat, to);
    if s.len() == 0 {
        assert(tokens(s, on) + rest =~= rest);
        assert(tokens(s, on.remove(x)) + done =~= done);
    } else {
        let c = s[0];
        let after = s.skip(1);
        let follow = tokens(after, on) + rest;
        let whole = tokens(s, on) + rest;
        let later = tokens(after, on.remove(x)) + done;
        assert(unambiguous(after)) by {
            assert forall|i: int| 0 <= i < after.len() - 1 && #[trigger] after[i] == '\\' implies 
                after[i + 1] != 'c' && after[i + 1] != 'r' && after[i + 1] != 'n' by {
                assert(s[i + 1] == '\\');
                assert(after[i + 1] == s[i + 1 + 1]);
            }
        }
        assert(settles(after, x, rest)) by {
            if after.len() > 0 {
                assert(after.last() == s.last());
            }
        }
        lemma_unescape_step(after, on, x, rest);
        if after.len() > 0 {
            lemma_tokens_head(after, on);
            assert(after[0] == s[1]);
            assert(follow[0] == tokens(after, on)[0]);
        } else {
            assert(follow =~= rest);
            assert(s.last() == c);
        }
        // a backslash that is not the start of `x`'s sequence is never followed by `x`'s letter
        assert(c == '\\' && x != '\\' && follow.len() > 0 ==> follow[0] != letter(x)) by {
            if c == '\\' && x != '\\' && follow.len() > 0 && after.len() > 0 {
                assert(s[0] == '\\');
            }
        }
        if is_special(c) && on.contains(c) {
            let tail = seq![letter(c)] + follow;
            assert(whole =~= seq!['\\', letter(c)] + follow);
            assert(whole.skip(1) =~= tail);
            assert(whole.skip(2) =~= follow);
            assert(tail.skip(1) =~= follow);
            if c == x {
                assert(whole.subrange(0, 2) =~= pat);
                assert(to + later =~= tokens(s, on.remove(x)) + done);
            } else {
                assert(!starts_with(whole, pat)) by {
                    assert(whole.subrange(0, 2)[1] == letter(c));
                }
                assert(!starts_with(tail, pat)) by {
                    if tail.len() >= 2 {
                        assert(tail.subrange(0, 2)[0] == letter(c));
                        assert(tail.subrange(0, 2)[1] == follow[0]);
                    }
                }
                assert(replace_all(tail, pat, to) == seq![letter(c)] + later);
                assert(seq!['\\'] + (seq![letter(c)] + later) =~= tokens(s, on.remove(x)) + done);
            }
        } else {
            assert(whole =~= seq![c] + follow);
            assert(whole.skip(1) =~= follow);
            assert(!starts_with(whole, pat)) by {
                if whole.len() >= 2 {
                    assert(whole.subrange(0, 2)[0] == c);
                    assert(whole.subrange(0, 2)[1] == follow[0]);
                }
            }
            assert(seq![c] + later =~= tokens(s, on.remove(x)) + done);
        }
    }
}

/// The same for a written text with nothing behind it.
proof fn lemma_unescape_step_alone(s: Seq<char>, on: Set<char>, x: char)
    requires
        is_special(x),
        on.contains(x),
        unambiguous(s),
    ensures
        replace_all(tokens(s, on), seq!['\\', letter(x)], seq![x]) == tokens(s, on.remove(x)),
{
    let none = Seq::<char>::empty();
    lemma_unescape_step(s, on, x, none);
    assert(tokens(s, on) + none =~= tokens(s, on));
    assert(tokens(s, on.remove(x)) + none =~= tokens(s, on.remove(x)));
}

/// Escaped text is the text written with all four specials escaped.
proof fn lemma_escaped_is_tokens(s: Seq<char>)
    ensures
        escaped(s) == tokens(s, set!['\\', '\r', '\n', ':']),
{
    let e0 = Set::<char>::empty();
    let e1 = e0.insert('\\');
    let e2 = e1.insert('\r');
    let e3 = e2.insert('\n');
    let e4 = e3.insert(':');
    lemma_tokens_none(s);
    lemma_escape_step(s, e0, '\\');
    lemma_escape_step(s, e1, '\r');
    lemma_escape_step(s, e2, '\n');
    lemma_escape_step(s, e3, ':');
    assert(e4 =~= set!['\\', '\r', '\n', ':']);
}

/// Every character of a written text is a backslash, one of the letters of
/// the escape sequences, or a character of the text that is not escaped.
proof fn lemma_tokens_chars(s: Seq<char>, on: Set<char>, i: int)
    requires
        0 <= i < tokens(s, on).len(),
    ensures
        tokens(s, on)[i] == '\\' || tokens(s, on)[i] == 'r' || tokens(s, on)[i] == 'n' || tokens(
            s,
            on,
        )[i] == 'c' || (s.contains(tokens(s, on)[i]) && !(is_special(tokens(s, on)[i])
            && on.contains(tokens(s, on)[i]))),
    decreases s.len(),
{
    if s.len() > 0 {
        let first = token(s[0], on);
        if i >= first.len() {
            lemma_tokens_chars(s.skip(1), on, i - first.len());
            let c = tokens(s, on)[i];
            if s.skip(1).contains(c) {
                let j = choose|j: int| 0 <= j < s.skip(1).len() && s.skip(1)[j] == c;
                assert(s[j + 1] == c);
            }
        } else {
            assert(s[0] == s[0]);
        }
    }
}

/// Escaped text holds no line feed, no carriage return and no colon.
pub proof fn lemma_escaped_chars(s: Seq<char>)
    ensures
        !escaped(s).contains('\n'),
        !escaped(s).contains('\r'),
        !escaped(s).contains(':'),
{
    lemma_escaped_is_tokens(s);
    let on = set!['\\', '\r', '\n', ':'];
    assert forall|i: int| 0 <= i < escaped(s).len() implies escaped(s)[i] != '\n' && escaped(s)[i]
        != '\r' && escaped(s)[i] != ':' by {
        lemma_tokens_chars(s, on, i);
    }
}

/// Unescaping takes back escaping: on every text in which no backslash
/// stands directly before `c`, `r` or `n`, escaping and then unescaping gives
/// the text itself.
pub proof fn lemma_unescape_escape(s: Seq<char>)
    requires
        unambiguous(s),
    ensures
        unescaped(escaped(s)) == s,
{
    let e4 = set!['\\', '\r', '\n', ':'];
    let e3 = e4.remove(':');
    let e2 = e3.remove('\\');
    let e1 = e2.remove('\r');
    let e0 = e1.remove('\n');
    lemma_escaped_is_tokens(s);
    lemma_unescape_step_alone(s, e4, ':');
    lemma_unescape_step_alone(s, e3, '\\');
    lemma_unescape_step_alone(s, e2, '\r');
    lemma_unescape_step_alone(s, e1, '\n');
    assert(e0 =~= Set::<char>::empty());
    lemma_tokens_none(s);
}

/// A text written in two parts is the two parts written one after the other.
proof fn lemma_tokens_concat(a: Seq<char>, b: Seq<char>, on: Set<char>)
    ensures
        tokens(a + b, on) == tokens(a, on) + tokens(b, on),
    decreases a.len(),
{
    if a.len() == 0 {
        assert(a + b =~= b);
        assert(tokens(a, on) + tokens(b, on) =~= tokens(b, on));
    } else {
        lemma_tokens_concat(a.skip(1), b, on);
        assert((a + b).skip(1) =~= a.skip(1) + b);
        assert(token(a[0], on) + (tokens(a.skip(1), on) + tokens(b, on)) =~= (token(a[0], on)
            + tokens(a.skip(1), on)) + tokens(b, on));
    }
}

/// A text that does not start with the two characters of `pat` keeps its
/// first character.
proof fn lemma_replace_miss(t: Seq<char>, pat: Seq<char>, to: Seq<char>)
    requires
        pat.len() == 2,
        t.len() > 0,
        t[0] != pat[0] || t.len() < 2 || t[1] != pat[1],
    ensures
        replace_all(t, pat, to) == seq![t[0]] + replace_all(t.skip(1), pat, to),
{
    if t.len() >= 2 {
        assert(t.subrange(0, 2)[0] == t[0]);
        assert(t.subrange(0, 2)[1] == t[1]);
    }
}

/// A text that starts with the two characters of `pat` starts with `to` after
/// the replacement.
proof fn lemma_replace_hit(t: Seq<char>, pat: Seq<char>, to: Seq<char>)
    requires
        pat.len() == 2,
        t.len() >= 2,
        t[0] == pat[0],
        t[1] == pat[1],
    ensures
        replace_all(t, pat, to) == to + replace_all(t.skip(2), pat, to),
{
    assert(t.subrange(0, 2) =~= pat);
}

/// The four replacements of `unescaped`, by number.
spec fn pass(t: Seq<char>, k: int) -> Seq<char> {
    if k == 1 {
        replace_all(t, seq!['\\', 'c'], seq![':'])
    } else if k == 2 {
        replace_all(t, seq!['\\', '\\'], seq!['\\'])
    } else if k == 3 {
        replace_all(t, seq!['\\', 'r'], seq!['\r'])
    } else {
        replace_all(t, seq!['\\', 'n'], seq!['\n'])
    }
}

/// What the four replacements make of a doubled backslash before one of the
/// letters `c`, `r`, `n`: the backslash and a colon, a carriage return, or a
/// line feed. After each of the first three a backslash or a carriage return
/// stands in front.
proof fn lemma_spoiled(x: char, behind: Seq<char>)
    requires
        x == 'c' || x == 'r' || x == 'n',
    ensures
        pass(seq!['\\', '\\', x] + behind, 1)[0] == '\\',
        pass(pass(seq!['\\', '\\', x] + behind, 1), 2)[0] == '\\',
        pass(pass(pass(seq!['\\', '\\', x] + behind, 1), 2), 3)[0] != 'n',
        pass(seq!['\\', '\\', x] + behind, 1).len() > 0,
        pass(pass(seq!['\\', '\\', x] + behind, 1), 2).len() > 0,
        pass(pass(pass(seq!['\\', '\\', x] + behind, 1), 2), 3).len() > 0,
        x == 'c' ==> pass(pass(pass(pass(seq!['\\', '\\', x] + behind, 1), 2), 3), 4).len() >= 2
            && pass(pass(pass(pass(seq!['\\', '\\', x] + behind, 1), 2), 3), 4)[1] == ':',
        x == 'r' ==> pass(pass(pass(pass(seq!['\\', '\\', x] + behind, 1), 2), 3), 4).len() >= 1
            && pass(pass(pass(pass(seq!['\\', '\\', x] + behind, 1), 2), 3), 4)[0] == '\r',
        x == 'n' ==> pass(pass(pass(pass(seq!['\\', '\\', x] + behind, 1), 2), 3), 4).len() >= 1
            && pass(pass(pass(pass(seq!['\\', '\\', x] + behind, 1), 2), 3), 4)[0] == '\n',
{
    let pat_c = seq!['\\', 'c'];
    let pat_b = seq!['\\', '\\'];
    let pat_r = seq!['\\', 'r'];
    let pat_n = seq!['\\', 'n'];
    let to_c = seq![':'];
    let to_b = seq!['\\'];
    let to_r = seq!['\r'];
    let to_n = seq!['\n'];
    let b1 = replace_all(behind, pat_c, to_c);
    let b2 = replace_all(b1, pat_b, to_b);
    let b3 = replace_all(b2, pat_r, to_r);
    let b4 = replace_all(b3, pat_n, to_n);
    let r0 = seq!['\\', '\\', x] + behind;
    // the first replacement, of `\c`
    let r1 = if x == 'c' {
        seq!['\\', ':'] + b1
    } else {
        seq!['\\', '\\', x] + b1
    };
    assert(pass(r0, 1) == r1) by {
        lemma_replace_miss(r0, pat_c, to_c);
        let u = r0.skip(1);
        assert(u =~= seq!['\\', x] + behind);
        if x == 'c' {
            lemma_replace_hit(u, pat_c, to_c);
            assert(u.skip(2) =~= behind);
            assert(seq!['\\'] + (to_c + b1) =~= r1);
        } else {
            lemma_replace_miss(u, pat_c, to_c);
            let v = u.skip(1);
            assert(v =~= seq![x] + behind);
            lemma_replace_miss(v, pat_c, to_c);
            assert(v.skip(1) =~= behind);
            assert(seq!['\\'] + (seq!['\\'] + (seq![x] + b1)) =~= r1);
        }
    }
    // the second, of `\\`
    let r2 = if x == 'c' {
        seq!['\\', ':'] + b2
    } else {
        seq!['\\', x] + b2
    };
    assert(pass(r1, 2) == r2) by {
        if x == 'c' {
            lemma_replace_miss(r1, pat_b, to_b);
            let u = r1.skip(1);
            assert(u =~= seq![':'] + b1);
            lemma_replace_miss(u, pat_b, to_b);
            assert(u.skip(1) =~= b1);
            assert(seq!['\\'] + (seq![':'] + b2) =~= r2);
        } else {
            lemma_replace_hit(r1, pat_b, to_b);
            let u = r1.skip(2);
            assert(u =~= seq![x] + b1);
            lemma_replace_miss(u, pat_b, to_b);
            assert(u.skip(1) =~= b1);
            assert(to_b + (seq![x] + b2) =~= r2);
        }
    }
    // the third, of `\r`
    let r3 = if x == 'r' {
        seq!['\r'] + b3
    } else if x == 'c' {
        seq!['\\', ':'] + b3
    } else {
        seq!['\\', x] + b3
    };
    assert(pass(r2, 3) == r3) by {
        if x == 'r' {
            lemma_replace_hit(r2, pat_r, to_r);
            assert(r2.skip(2) =~= b2);
        } else {
            lemma_replace_miss(r2, pat_r, to_r);
            let u = r2.skip(1);
            assert(u =~= seq![r2[1]] + b2);
            lemma_replace_miss(u, pat_r, to_r);
            assert(u.skip(1) =~= b2);
            assert(seq!['\\'] + (seq![r2[1]] + b3) =~= r3);
        }
    }
    // the fourth, of `\n`
    let r4 = if x == 'r' {
        seq!['\r'] + b4
    } else if x == 'c' {
        seq!['\\', ':'] + b4
    } else {
        seq!['\n'] + b4
    };
    assert(pass(r3, 4) == r4) by {
        if x == 'r' {
            lemma_replace_miss(r3, pat_n, to_n);
            assert(r3.skip(1) =~= b3);
        } else if x == 'c' {
            lemma_replace_miss(r3, pat_n, to_n);
            let u = r3.skip(1);
            assert(u =~= seq![':'] + b3);
            lemma_replace_miss(u, pat_n, to_n);
            assert(u.skip(1) =~= b3);
            assert(seq!['\\'] + (seq![':'] + b4) =~= r4);
        } else {
            lemma_replace_hit(r3, pat_n, to_n);
            assert(r3.skip(2) =~= b3);
        }
    }
}

/// Whether a backslash stands at `at` directly before `c`, `r` or `n`.
spec fn clash(s: Seq<char>, at: int) -> bool {
    0 <= at < s.len() - 1 && s[at] == '\\' && (s[at + 1] == 'c' || s[at + 1] == 'r' || s[at + 1]
        == 'n')
}

/// Where there is a clash there is a first one.
proof fn lemma_first_clash(s: Seq<char>, at: int) -> (first: int)
    requires
        clash(s, at),
    ensures
        clash(s, first),
        forall|k: int| 0 <= k < first ==> !clash(s, k),
    decreases at,
{
    if exists|k: int| 0 <= k < at && clash(s, k) {
        let k = choose|k: int| 0 <= k < at && clash(s, k);
        lemma_first_clash(s, k)
    } else {
        at
    }
}

/// Escaping and then unescaping spoils every text in which a backslash
/// stands directly before `c`, `r` or `n`: at the first such place the
/// backslash comes back as a carriage return or a line feed, or the `c` as a
/// colon.
pub proof fn lemma_escape_spoils(s: Seq<char>)
    requires
        !unambiguous(s),
    ensures
        unescaped(escaped(s)) != s,
{
    let some = choose|i: int|
        0 <= i < s.len() - 1 && #[trigger] s[i] == '\\' && !(s[i + 1] != 'c' && s[i + 1] != 'r'
            && s[i + 1] != 'n');
    let at = lemma_first_clash(s, some);
    let p = s.take(at);
    let x = s[at + 1];
    let q = s.skip(at + 2);
    let e4 = set!['\\', '\r', '\n', ':'];
    let e3 = e4.remove(':');
    let e2 = e3.remove('\\');
    let e1 = e2.remove('\r');
    let e0 = e1.remove('\n');
    let behind = tokens(q, e4);
    let r0 = seq!['\\', '\\', x] + behind;
    let r1 = pass(r0, 1);
    let r2 = pass(r1, 2);
    let r3 = pass(r2, 3);
    let r4 = pass(r3, 4);
    assert(unambiguous(p)) by {
        assert forall|i: int| 0 <= i < p.len() - 1 && #[trigger] p[i] == '\\' implies p[i + 1]
            != 'c' && p[i + 1] != 'r' && p[i + 1] != 'n' by {
            assert(!clash(s, i));
            assert(p[i + 1] == s[i + 1]);
        }
    }
    assert(tokens(s, e4) == tokens(p, e4) + r0) by {
        let mid = seq!['\\', x] + q;
        assert(s =~= p + mid);
        lemma_tokens_concat(p, mid, e4);
        assert(mid.skip(1) =~= seq![x] + q);
        assert((seq![x] + q).skip(1) =~= q);
        assert(tokens(seq![x] + q, e4) == seq![x] + behind);
        assert(tokens(mid, e4) =~= r0);
    }
    lemma_escaped_is_tokens(s);
    lemma_spoiled(x, behind);
    assert(r0[0] == '\\');
    lemma_unescape_step(p, e4, ':', r0);
    lemma_unescape_step(p, e3, '\\', r1);
    lemma_unescape_step(p, e2, '\r', r2);
    lemma_unescape_step(p, e1, '\n', r3);
    assert(e0 =~= Set::<char>::empty());
    lemma_tokens_none(p);
    let back = unescaped(escaped(s));
    assert(back == p + r4);
    if x == 'c' {
        assert(back[at + 1] == r4[1]);
    } else {
        assert(back[at] == r4[0]);
    }
}

/// Unescaping takes back escaping on the texts in which no backslash stands
/// directly before `c`, `r` or `n`, and on no others.
pub proof fn lemma_unescape_escape_exactly(s: Seq<char>)
    ensures
        unescaped(escaped(s)) == s <==> unambiguous(s),
{
    if unambiguous(s) {
        lemma_unescape_escape(s);
    } else {
        lemma_escape_spoils(s);
    }
}

/// The one-character text `a`.
fn single(a: char) -> (out: Vec<char>)
    ensures
        out@ == seq![a],
{
    let out = vec![a];
    assert(out@ =~= seq![a]);
    out
}

/// The two-character text `a`, `b`.
fn pair(a: char, b: char) -> (out: Vec<char>)
    ensures
        out@ == seq![a, b],
{
    let out = vec![a, b];
    assert(out@ =~= seq![a, b]);
    out
}

/// The characters of `s`, escaped for the wire.
pub fn escape_chars(s: &Vec<char>) -> (out: Vec<char>)
    ensures
        out@ == escaped(s@),
{
    let s1 = replace(s, &single('\\'), &pair('\\', '\\'));
    let s2 = replace(&s1, &single('\r'), &pair('\\', 'r'));
    let s3 = replace(&s2, &single('\n'), &pair('\\', 'n'));
    replace(&s3, &single(':'), &pair('\\', 'c'))
}

/// The characters of `s`, with the escaping of the wire undone.
pub fn unescape_chars(s: &Vec<char>) -> (out: Vec<char>)
    ensures
        out@ == unescaped(s@),
{
    let s1 = replace(s, &pair('\\', 'c'), &single(':'));
    let s2 = replace(&s1, &pair('\\', '\\'), &single('\\'));
    let s3 = replace(&s2, &pair('\\', 'r'), &single('\r'));
    replace(&s3, &pair('\\', 'n'), &single('\n'))
}

/// Escapes a header key or value for the wire.
pub fn sanitise_header_text(s: &String) -> (out: String)
    ensures
        out@ == escaped(s@),
{
    string_of(&escape_chars(&chars_of(s.as_str())))
}

/// Undoes the escaping of a header key or value read off the wire.
pub fn parse_header_text(s: &str) -> (out: String)
    ensures
        out@ == unescaped(s@),
{
    string_of(&unescape_chars(&chars_of(s)))
}

} // verus!
