//! Escaping for the shells that commands pass through: the local shell and
//! the one behind `adb shell`.

use crate::text::{add_char, chars_of, first_at, matches_at, occurs, occurs_at};
use vstd::prelude::*;
use vstd::string::*;

verus! {

/// What one character of a path becomes inside `'...'`: a single quote ends
/// the quoted text, stands escaped, and reopens it. Everything else is
/// literal there.
pub open spec fn quoted_piece(c: char) -> Seq<char> {
    if c == '\'' {
        seq!['\'', '\\', '\'', '\'']
    } else {
        seq![c]
    }
}

/// `s` as it stands between single quotes.
pub open spec fn path_escaped(s: Seq<char>) -> Seq<char>
    decreases s.len(),
{
    if s.len() == 0 {
        Seq::empty()
    } else {
        quoted_piece(s[0]) + path_escaped(s.skip(1))
    }
}

/// `s` between single quotes, as one shell word.
pub open spec fn quoted(s: Seq<char>) -> Seq<char> {
    seq!['\''] + path_escaped(s) + seq!['\'']
}

/// `s` with a backslash before each of its `special` characters.
pub open spec fn backslashed(s: Seq<char>, special: Seq<char>) -> Seq<char>
    decreases s.len(),
{
    if s.len() == 0 {
        Seq::empty()
    } else {
        (if special.contains(s[0]) {
            seq!['\\', s[0]]
        } else {
            seq![s[0]]
        }) + backslashed(s.skip(1), special)
    }
}

/// `s` without the occurrences of `pattern`, taken from the left and without
/// overlap.
pub open spec fn stripped(s: Seq<char>, pattern: Seq<char>) -> Seq<char>
    decreases s.len(),
{
    if s.len() == 0 {
        s
    } else if pattern.len() > 0 && occurs_at(s, pattern, 0) {
        stripped(s.skip(pattern.len() as int), pattern)
    } else {
        seq![s[0]] + stripped(s.skip(1), pattern)
    }
}

/// The characters that a command for the local shell escapes.
pub open spec fn command_specials() -> Seq<char> {
    seq!['\\', '\'', '`']
}

/// The characters that a command for `adb shell` escapes.
pub open spec fn adb_specials() -> Seq<char> {
    seq!['\\', '(', ')', '\'', '`', '|', '&', ';', '<', '>', '*', '#', '%', '=', '~']
}

/// `s` without the colour codes that have lost their escape byte, one code
/// after the other.
pub open spec fn colours_stripped(s: Seq<char>) -> Seq<char> {
    let s = stripped(s, "/[0;0m"@);
    let s = stripped(s, "/[1;32m"@);
    let s = stripped(s, "/[1;34m"@);
    stripped(s, "/[1;36m"@)
}

/// The word that a shell makes of `s`, after `done`: a single quote toggles
/// literal mode, and outside it a backslash makes the next character literal.
pub open spec fn unquoted_from(s: Seq<char>, literal: bool, done: Seq<char>) -> Option<Seq<char>>
    decreases s.len(),
{
    if s.len() == 0 {
        if literal {
            None
        } else {
            Some(done)
        }
    } else if s[0] == '\'' {
        unquoted_from(s.skip(1), !literal, done)
    } else if s[0] == '\\' && !literal {
        if s.len() < 2 {
            None
        } else {
            unquoted_from(s.skip(2), literal, done.push(s[1]))
        }
    } else {
        unquoted_from(s.skip(1), literal, done.push(s[0]))
    }
}

/// The word that a shell makes of `s`; none where a quote or a backslash is
/// left open.
pub open spec fn shell_word(s: Seq<char>) -> Option<Seq<char>> {
    unquoted_from(s, false, Seq::empty())
}

/// Escapes a path for embedding inside a single-quoted shell string.
///
/// `'` is replaced with `'\''` (end quote, escaped quote, reopen quote), which
/// is the only escape a single-quoted string needs: every other character, `"`
/// and `\` included, is literal inside `'...'`.
pub fn shell_escape_path(path: &str) -> (escaped: String)
    ensures
        escaped@ == path_escaped(path@),
{
    let chars = chars_of(path);
    let mut escaped = String::new();
    let mut i: usize = 0;
    assert(chars@.skip(0) == chars@);
    assert(escaped@ + path_escaped(chars@) == path_escaped(chars@));
    while i < chars.len()
        invariant
            i <= chars.len(),
            escaped@ + path_escaped(chars@.skip(i as int)) == path_escaped(chars@),
        decreases chars.len() - i,
    {
        let ghost before = escaped@;
        let ghost rest = chars@.skip(i as int);
        let c = chars[i];
        if c == '\'' {
            add_char(&mut escaped, '\'');
            add_char(&mut escaped, '\\');
            add_char(&mut escaped, '\'');
            add_char(&mut escaped, '\'');
        } else {
            add_char(&mut escaped, c);
        }
        assert(rest.skip(1) == chars@.skip(i + 1));
        assert(escaped@ == before + quoted_piece(c));
        assert(before + (quoted_piece(c) + path_escaped(rest.skip(1))) == escaped@ + path_escaped(
            rest.skip(1),
        ));
        i += 1;
    }
    assert(escaped@ + path_escaped(chars@.skip(i as int)) == escaped@);
    escaped
}

/// `s` with a backslash before each of its `special` characters.
fn backslash(s: &str, special: &Vec<char>) -> (escaped: String)
    ensures
        escaped@ == backslashed(s@, special@),
{
    let chars = chars_of(s);
    let mut escaped = String::new();
    let mut i: usize = 0;
    assert(chars@.skip(0) == chars@);
    assert(escaped@ + backslashed(chars@, special@) == backslashed(chars@, special@));
    while i < chars.len()
        invariant
            i <= chars.len(),
            escaped@ + backslashed(chars@.skip(i as int), special@) == backslashed(
                chars@,
                special@,
            ),
        decreases chars.len() - i,
    {
        let ghost before = escaped@;
        let ghost rest = chars@.skip(i as int);
        let c = chars[i];
        let mut is_special: bool = false;
        let mut k: usize = 0;
        while k < special.len()
            invariant
                k <= special.len(),
                is_special ==> special@.contains(c),
                !is_special ==> forall|j: int| 0 <= j < k ==> special@[j] != c,
            decreases special.len() - k,
        {
            if special[k] == c {
                is_special = true;
            }
            k += 1;
        }
        if is_special {
            add_char(&mut escaped, '\\');
        }
        add_char(&mut escaped, c);
        assert(rest.skip(1) == chars@.skip(i + 1));
        let ghost piece = if special@.contains(c) {
            seq!['\\', c]
        } else {
            seq![c]
        };
        assert(escaped@ == before + piece);
        assert(before + (piece + backslashed(rest.skip(1), special@)) == escaped@ + backslashed(
            rest.skip(1),
            special@,
        ));
        i += 1;
    }
    assert(escaped@ + backslashed(chars@.skip(i as int), special@) == escaped@);
    escaped
}

/// `s` without the occurrences of `pattern`, taken from the left.
fn strip(s: &str, pattern: &str) -> (r: String)
    ensures
        r@ == stripped(s@, pattern@),
{
    let chars = chars_of(s);
    let pattern_chars = chars_of(pattern);
    let mut r = String::new();
    let mut i: usize = 0;
    assert(chars@.skip(0) == chars@);
    assert(r@ + stripped(chars@, pattern@) == stripped(chars@, pattern@));
    while i < chars.len()
        invariant
            i <= chars.len(),
            pattern_chars@ == pattern@,
            r@ + stripped(chars@.skip(i as int), pattern@) == stripped(chars@, pattern@),
        decreases chars.len() - i,
    {
        let ghost before = r@;
        let ghost rest = chars@.skip(i as int);
        let found = pattern_chars.len() > 0 && matches_at(&chars, &pattern_chars, i);
        assert(occurs_at(rest, pattern@, 0) == occurs_at(chars@, pattern@, i as int)) by {
            if pattern@.len() <= rest.len() {
                assert(rest.subrange(0, pattern@.len() as int) == chars@.subrange(
                    i as int,
                    i + pattern@.len(),
                ));
            }
        }
        if found {
            assert(rest.skip(pattern@.len() as int) == chars@.skip(i + pattern@.len()));
            i += pattern_chars.len();
        } else {
            add_char(&mut r, chars[i]);
            assert(rest.skip(1) == chars@.skip(i + 1));
            assert(before + (seq![rest[0]] + stripped(rest.skip(1), pattern@)) == r@ + stripped(
                rest.skip(1),
                pattern@,
            ));
            i += 1;
        }
    }
    assert(r@ + stripped(chars@.skip(i as int), pattern@) == r@);
    r
}

/// Escapes a command for the local shell: a backslash before each `\`, `'`
/// and `` ` ``.
pub fn shell_escape_command(cmd: &str) -> (escaped: String)
    ensures
        escaped@ == backslashed(cmd@, command_specials()),
{
    let special: Vec<char> = vec!['\\', '\'', '`'];
    assert(special@ == command_specials());
    backslash(cmd, &special)
}

/// Escapes a command for `adb shell`: the colour codes that some devices
/// print without their escape byte are removed, then a backslash goes before
/// each shell metacharacter. The codes go first, while the `;` inside them is
/// still bare.
pub fn adb_shell_escape_command(cmd: &str) -> (escaped: String)
    ensures
        escaped@ == backslashed(colours_stripped(cmd@), adb_specials()),
{
    let s = strip(cmd, "/[0;0m");
    let s = strip(s.as_str(), "/[1;32m");
    let s = strip(s.as_str(), "/[1;34m");
    let s = strip(s.as_str(), "/[1;36m");
    let special: Vec<char> = vec![
        '\\', '(', ')', '\'', '`', '|', '&', ';', '<', '>', '*', '#', '%', '=', '~',
    ];
    assert(special@ == adb_specials());
    backslash(s.as_str(), &special)
}

// ---- laws ----

proof fn lemma_quoted_body(s: Seq<char>, done: Seq<char>)
    ensures
        unquoted_from(path_escaped(s) + seq!['\''], true, done) == Some(done + s),
    decreases s.len(),
{
    let close = seq!['\''];
    if s.len() == 0 {
        assert(path_escaped(s) + close == close);
        assert(close.skip(1).len() == 0);
        assert(done + s == done);
        assert(unquoted_from(close.skip(1), false, done) == Some(done));
    } else {
        let rest = path_escaped(s.skip(1)) + close;
        let text = path_escaped(s) + close;
        lemma_quoted_body(s.skip(1), done.push(s[0]));
        assert(done.push(s[0]) + s.skip(1) == done + s);
        if s[0] == '\'' {
            assert(text == seq!['\'', '\\', '\'', '\''] + rest);
            let a = text.skip(1);
            assert(a == seq!['\\', '\'', '\''] + rest);
            let b = a.skip(2);
            assert(b == seq!['\''] + rest);
            assert(b.skip(1) == rest);
            assert(unquoted_from(text, true, done) == unquoted_from(a, false, done));
            assert(unquoted_from(a, false, done) == unquoted_from(b, false, done.push('\'')));
            assert(unquoted_from(b, false, done.push('\'')) == unquoted_from(
                rest,
                true,
                done.push('\''),
            ));
        } else {
            assert(text == seq![s[0]] + rest);
            assert(text.skip(1) == rest);
        }
    }
}

/// Between single quotes, the shell reads an escaped path back as the path
/// itself, whatever characters it holds.
pub proof fn law_path_round_trips(path: Seq<char>)
    ensures
        shell_word(quoted(path)) == Some(path),
{
    let text = quoted(path);
    lemma_quoted_body(path, Seq::empty());
    assert(text.skip(1) == path_escaped(path) + seq!['\'']);
    assert(Seq::<char>::empty() + path == path);
}

/// Every single quote in an escaped path belongs to an escape: once these are
/// taken out, none is left.
pub proof fn law_no_bare_quote(path: Seq<char>)
    ensures
        !stripped(path_escaped(path), seq!['\'', '\\', '\'', '\'']).contains('\''),
    decreases path.len(),
{
    let escape = seq!['\'', '\\', '\'', '\''];
    if path.len() > 0 {
        law_no_bare_quote(path.skip(1));
        let text = path_escaped(path);
        let rest = path_escaped(path.skip(1));
        let below = stripped(rest, escape);
        if path[0] == '\'' {
            assert(text.subrange(0, 4) == escape);
            assert(text.skip(4) == rest);
        } else {
            assert(text == seq![path[0]] + rest);
            assert(text.skip(1) == rest);
            if occurs_at(text, escape, 0) {
                assert(text.subrange(0, 4)[0] == '\'');
            }
            assert(stripped(text, escape) == seq![path[0]] + below);
            assert forall|i: int| 0 <= i < 1 + below.len() implies (seq![path[0]] + below)[i]
                != '\'' by {
                if i > 0 {
                    assert((seq![path[0]] + below)[i] == below[i - 1]);
                }
            }
        }
    }
}

proof fn lemma_backslashed_reads_back(s: Seq<char>, special: Seq<char>, done: Seq<char>)
    requires
        special.contains('\\'),
        special.contains('\''),
    ensures
        unquoted_from(backslashed(s, special), false, done) == Some(done + s),
    decreases s.len(),
{
    if s.len() == 0 {
        assert(done + s == done);
    } else {
        let rest = backslashed(s.skip(1), special);
        let text = backslashed(s, special);
        lemma_backslashed_reads_back(s.skip(1), special, done.push(s[0]));
        assert(done.push(s[0]) + s.skip(1) == done + s);
        if special.contains(s[0]) {
            assert(text == seq!['\\', s[0]] + rest);
            assert(text.skip(2) == rest);
        } else {
            assert(text == seq![s[0]] + rest);
            assert(text.skip(1) == rest);
        }
    }
}

/// A shell reads an escaped command back as the command itself.
pub proof fn law_command_round_trips(cmd: Seq<char>)
    ensures
        shell_word(backslashed(cmd, command_specials())) == Some(cmd),
{
    assert(command_specials()[0] == '\\');
    assert(command_specials()[1] == '\'');
    lemma_backslashed_reads_back(cmd, command_specials(), Seq::empty());
    assert(Seq::<char>::empty() + cmd == cmd);
}

/// A shell reads a command that was escaped for `adb shell` back as that
/// command without its colour codes.
pub proof fn law_adb_command_round_trips(cmd: Seq<char>)
    ensures
        shell_word(backslashed(colours_stripped(cmd), adb_specials())) == Some(
            colours_stripped(cmd),
        ),
{
    assert(adb_specials()[0] == '\\');
    assert(adb_specials()[3] == '\'');
    lemma_backslashed_reads_back(colours_stripped(cmd), adb_specials(), Seq::empty());
    assert(Seq::<char>::empty() + colours_stripped(cmd) == colours_stripped(cmd));
}

/// Escaping goes character by character: each piece is escaped on its own, a
/// single quote as four characters and everything else as itself.
pub proof fn law_paths_are_escaped_piecewise(a: Seq<char>, b: Seq<char>, c: char)
    ensures
        path_escaped(a + b) == path_escaped(a) + path_escaped(b),
        path_escaped(Seq::empty()) == Seq::<char>::empty(),
        c != '\'' ==> path_escaped(seq![c]) == seq![c],
        path_escaped(seq!['\'']) == seq!['\'', '\\', '\'', '\''],
    decreases a.len(),
{
    reveal_with_fuel(path_escaped, 2);
    assert(seq![c].skip(1) =~= Seq::<char>::empty());
    assert(seq!['\''].skip(1) =~= Seq::<char>::empty());
    assert(path_escaped(seq![c]) =~= quoted_piece(c));
    assert(path_escaped(seq!['\'']) =~= quoted_piece('\''));
    if a.len() == 0 {
        assert(a + b =~= b);
        assert(path_escaped(a) + path_escaped(b) =~= path_escaped(b));
    } else {
        law_paths_are_escaped_piecewise(a.skip(1), b, c);
        assert((a + b).skip(1) =~= a.skip(1) + b);
        assert(quoted_piece(a[0]) + (path_escaped(a.skip(1)) + path_escaped(b)) =~= path_escaped(a)
            + path_escaped(b));
    }
}

proof fn lemma_backslashed_piecewise(a: Seq<char>, b: Seq<char>, special: Seq<char>)
    ensures
        backslashed(a + b, special) == backslashed(a, special) + backslashed(b, special),
    decreases a.len(),
{
    if a.len() == 0 {
        assert(a + b =~= b);
        assert(backslashed(a, special) + backslashed(b, special) =~= backslashed(b, special));
    } else {
        lemma_backslashed_piecewise(a.skip(1), b, special);
        assert((a + b).skip(1) =~= a.skip(1) + b);
        let piece = if special.contains(a[0]) {
            seq!['\\', a[0]]
        } else {
            seq![a[0]]
        };
        assert(piece + (backslashed(a.skip(1), special) + backslashed(b, special)) =~= backslashed(
            a,
            special,
        ) + backslashed(b, special));
    }
}

/// What the local shell would take for more than a character gets a backslash
/// of its own, and nothing else changes.
pub proof fn law_commands_are_escaped_piecewise(a: Seq<char>, b: Seq<char>, c: char)
    ensures
        backslashed(a + b, command_specials()) == backslashed(a, command_specials()) + backslashed(
            b,
            command_specials(),
        ),
        backslashed(seq![c], command_specials()) == (if c == '\\' || c == '\'' || c == '`' {
            seq!['\\', c]
        } else {
            seq![c]
        }),
{
    let special = command_specials();
    lemma_backslashed_piecewise(a, b, special);
    reveal_with_fuel(backslashed, 2);
    assert(seq![c].skip(1) =~= Seq::<char>::empty());
    assert(special[0] == '\\' && special[1] == '\'' && special[2] == '`');
    if special.contains(c) {
        let i = choose|i: int| 0 <= i < special.len() && special[i] == c;
        assert(c == '\\' || c == '\'' || c == '`');
        assert(backslashed(seq![c], special) =~= seq!['\\', c]);
    } else {
        assert(backslashed(seq![c], special) =~= seq![c]);
    }
}

/// So does what the shell behind `adb shell` would take for more.
pub proof fn law_adb_commands_are_escaped_piecewise(a: Seq<char>, b: Seq<char>, c: char)
    ensures
        backslashed(a + b, adb_specials()) == backslashed(a, adb_specials()) + backslashed(
            b,
            adb_specials(),
        ),
        backslashed(seq![c], adb_specials()) == (if "\\()'`|&;<>*#%=~"@.contains(c) {
            seq!['\\', c]
        } else {
            seq![c]
        }),
{
    let special = adb_specials();
    lemma_backslashed_piecewise(a, b, special);
    reveal_with_fuel(backslashed, 2);
    reveal_strlit("\\()'`|&;<>*#%=~");
    assert(special =~= "\\()'`|&;<>*#%=~"@);
    assert(seq![c].skip(1) =~= Seq::<char>::empty());
    if special.contains(c) {
        assert(backslashed(seq![c], special) =~= seq!['\\', c]);
    } else {
        assert(backslashed(seq![c], special) =~= seq![c]);
    }
}

/// A text in which a pattern does not stand loses nothing; otherwise it loses
/// the first place where it stands, and then whatever it would lose behind it.
pub proof fn law_stripping_takes_out_the_pattern(s: Seq<char>, pattern: Seq<char>, at: int)
    requires
        pattern.len() > 0,
    ensures
        !occurs(s, pattern) ==> stripped(s, pattern) == s,
        first_at(s, pattern, at) ==> stripped(s, pattern) == s.take(at) + stripped(
            s.skip(at + pattern.len()),
            pattern,
        ),
    decreases s.len(),
{
    if s.len() == 0 {
    } else if occurs_at(s, pattern, 0) {
        if first_at(s, pattern, at) {
            assert(at == 0);
            assert(s.take(0) + stripped(s.skip(pattern.len() as int), pattern) =~= stripped(
                s.skip(pattern.len() as int),
                pattern,
            ));
        }
    } else {
        let rest = s.skip(1);
        assert forall|j: int| occurs_at(rest, pattern, j) == (0 <= j && occurs_at(
            s,
            pattern,
            j + 1,
        )) by {
            if 0 <= j && j + pattern.len() <= rest.len() {
                assert(rest.subrange(j, j + pattern.len()) =~= s.subrange(
                    j + 1,
                    j + 1 + pattern.len(),
                ));
            }
        }
        law_stripping_takes_out_the_pattern(rest, pattern, at - 1);
        if !occurs(s, pattern) {
            assert(!occurs(rest, pattern)) by {
                if occurs(rest, pattern) {
                    let j = choose|j: int| occurs_at(rest, pattern, j);
                    assert(occurs_at(s, pattern, j + 1));
                }
            }
            assert(seq![s[0]] + rest =~= s);
        }
        if first_at(s, pattern, at) {
            assert(at > 0);
            assert(occurs_at(rest, pattern, at - 1));
            assert forall|j: int| j < at - 1 implies !occurs_at(rest, pattern, j) by {
                if occurs_at(rest, pattern, j) {
                    assert(occurs_at(s, pattern, j + 1));
                }
            }
            assert(first_at(rest, pattern, at - 1));
            assert(rest.skip(at - 1 + pattern.len()) =~= s.skip(at + pattern.len()));
            let tail = stripped(s.skip(at + pattern.len()), pattern);
            assert(seq![s[0]] + (rest.take(at - 1) + tail) =~= s.take(at) + tail);
        }
    }
}

/// Of the four colour codes, one that stands alone between plain text goes and
/// the text stays; text with none of them is as it was.
pub proof fn law_colours_go(s: Seq<char>)
    requires
        !occurs(s, "/[0;0m"@),
        !occurs(s, "/[1;32m"@),
        !occurs(s, "/[1;34m"@),
        !occurs(s, "/[1;36m"@),
    ensures
        colours_stripped(s) == s,
        colours_stripped("/[0;0m"@ + s) == s,
        colours_stripped("/[1;32m"@ + s) == s,
        colours_stripped("/[1;34m"@ + s) == s,
        colours_stripped("/[1;36m"@ + s) == s,
{
    reveal_strlit("/[0;0m");
    reveal_strlit("/[1;32m");
    reveal_strlit("/[1;34m");
    reveal_strlit("/[1;36m");
    let a = "/[0;0m"@;
    let b = "/[1;32m"@;
    let c = "/[1;34m"@;
    let d = "/[1;36m"@;
    law_stripping_takes_out_the_pattern(s, a, 0);
    law_stripping_takes_out_the_pattern(s, b, 0);
    law_stripping_takes_out_the_pattern(s, c, 0);
    law_stripping_takes_out_the_pattern(s, d, 0);
    lemma_code_in_front(a, s, a);
    lemma_code_in_front(b, s, a);
    lemma_code_in_front(b, s, b);
    lemma_code_in_front(c, s, a);
    lemma_code_in_front(c, s, b);
    lemma_code_in_front(c, s, c);
    lemma_code_in_front(d, s, a);
    lemma_code_in_front(d, s, b);
    lemma_code_in_front(d, s, c);
    lemma_code_in_front(d, s, d);
}

/// What stripping one code does to another in front of a text without either.
proof fn lemma_code_in_front(code: Seq<char>, s: Seq<char>, pattern: Seq<char>)
    requires
        code == "/[0;0m"@ || code == "/[1;32m"@ || code == "/[1;34m"@ || code == "/[1;36m"@,
        pattern == "/[0;0m"@ || pattern == "/[1;32m"@ || pattern == "/[1;34m"@ || pattern
            == "/[1;36m"@,
        !occurs(s, pattern),
    ensures
        code == pattern ==> stripped(code + s, pattern) == s,
        code != pattern ==> stripped(code + s, pattern) == code + s,
{
    reveal_strlit("/[0;0m");
    reveal_strlit("/[1;32m");
    reveal_strlit("/[1;34m");
    reveal_strlit("/[1;36m");
    let text = code + s;
    law_stripping_takes_out_the_pattern(s, pattern, 0);
    if code == pattern {
        assert(text.subrange(0, pattern.len() as int) =~= pattern);
        assert(text.skip(pattern.len() as int) =~= s);
        assert(first_at(text, pattern, 0));
        law_stripping_takes_out_the_pattern(text, pattern, 0);
        assert(text.take(0) + s =~= s);
    } else {
        assert forall|j: int| !occurs_at(text, pattern, j) by {
            if occurs_at(text, pattern, j) {
                let piece = text.subrange(j, j + pattern.len());
                assert(piece[0] == '/');
                if j >= code.len() {
                    assert(s.subrange(j - code.len(), j - code.len() + pattern.len()) =~= piece);
                    assert(occurs_at(s, pattern, j - code.len()));
                } else {
                    assert(text[j] == piece[0]);
                    assert(text[j] == code[j]);
                    assert(j == 0);
                    assert(piece[2] == text[2] && text[2] == code[2]);
                    assert(piece[4] == text[4] && text[4] == code[4]);
                    assert(piece[5] == text[5] && text[5] == code[5]);
                }
            }
        }
        law_stripping_takes_out_the_pattern(text, pattern, 0);
    }
}

// ---- how a shell takes a command apart ----

/// What a shell is in the middle of.
pub enum Reading {
    Bare,
    /// Between single quotes.
    Literal,
    /// Between backticks.
    Command,
}

/// The word that was begun, if any.
pub open spec fn begun(word: Option<Seq<char>>) -> Seq<char> {
    match word {
        Some(word) => word,
        None => Seq::empty(),
    }
}

/// The words that a shell makes of `s`, after those in `done` and the one it is
/// in. Spaces part words, but not between single quotes, where everything is
/// literal, nor between backticks, which stay as they are with what is between
/// them. Elsewhere a backslash makes the next character literal.
pub open spec fn words_from(
    s: Seq<char>,
    mode: Reading,
    word: Option<Seq<char>>,
    done: Seq<Seq<char>>,
) -> Option<Seq<Seq<char>>>
    decreases s.len(),
{
    if s.len() == 0 {
        match (mode, word) {
            (Reading::Bare, Some(word)) => Some(done.push(word)),
            (Reading::Bare, None) => Some(done),
            _ => None,
        }
    } else {
        let c = s[0];
        let rest = s.skip(1);
        match mode {
            Reading::Literal => if c == '\'' {
                words_from(rest, Reading::Bare, Some(begun(word)), done)
            } else {
                words_from(rest, Reading::Literal, Some(begun(word).push(c)), done)
            },
            Reading::Command => if c == '`' {
                words_from(rest, Reading::Bare, Some(begun(word).push(c)), done)
            } else {
                words_from(rest, Reading::Command, Some(begun(word).push(c)), done)
            },
            Reading::Bare => if c == ' ' {
                match word {
                    Some(word) => words_from(rest, Reading::Bare, None, done.push(word)),
                    None => words_from(rest, Reading::Bare, None, done),
                }
            } else if c == '\'' {
                words_from(rest, Reading::Literal, Some(begun(word)), done)
            } else if c == '`' {
                words_from(rest, Reading::Command, Some(begun(word).push(c)), done)
            } else if c == '\\' {
                if s.len() < 2 {
                    None
                } else {
                    words_from(s.skip(2), Reading::Bare, Some(begun(word).push(s[1])), done)
                }
            } else {
                words_from(rest, Reading::Bare, Some(begun(word).push(c)), done)
            },
        }
    }
}

/// The words that a shell makes of a command; none where a quote, a backtick or
/// a backslash is left open.
pub open spec fn shell_words(s: Seq<char>) -> Option<Seq<Seq<char>>> {
    words_from(s, Reading::Bare, None, Seq::empty())
}

/// Text in which a shell sees nothing but characters.
pub open spec fn is_plain(s: Seq<char>) -> bool {
    forall|i: int|
        0 <= i < s.len() ==> (#[trigger] s[i]) != ' ' && s[i] != '\'' && s[i] != '`' && s[i]
            != '\\'
}

pub(crate) proof fn lemma_plain_word(
    plain: Seq<char>,
    rest: Seq<char>,
    word: Option<Seq<char>>,
    done: Seq<Seq<char>>,
)
    requires
        is_plain(plain),
        plain.len() > 0,
    ensures
        words_from(plain + rest, Reading::Bare, word, done) == words_from(
            rest,
            Reading::Bare,
            Some(begun(word) + plain),
            done,
        ),
    decreases plain.len(),
{
    let text = plain + rest;
    let next = begun(word).push(plain[0]);
    assert(text[0] == plain[0]);
    assert(text.skip(1) =~= plain.skip(1) + rest);
    assert(words_from(text, Reading::Bare, word, done) == words_from(
        plain.skip(1) + rest,
        Reading::Bare,
        Some(next),
        done,
    ));
    if plain.len() == 1 {
        assert(plain.skip(1) + rest =~= rest);
        assert(begun(word) + plain =~= next);
    } else {
        assert forall|i: int| 0 <= i < plain.skip(1).len() implies (#[trigger] plain.skip(1)[i])
            != ' ' && plain.skip(1)[i] != '\'' && plain.skip(1)[i] != '`' && plain.skip(1)[i]
            != '\\' by {
            assert(plain.skip(1)[i] == plain[i + 1]);
        }
        lemma_plain_word(plain.skip(1), rest, Some(next), done);
        assert(next + plain.skip(1) =~= begun(word) + plain);
    }
}

pub(crate) proof fn lemma_space(rest: Seq<char>, word: Seq<char>, done: Seq<Seq<char>>)
    ensures
        words_from(seq![' '] + rest, Reading::Bare, Some(word), done) == words_from(
            rest,
            Reading::Bare,
            None,
            done.push(word),
        ),
{
    assert((seq![' '] + rest).skip(1) =~= rest);
}

proof fn lemma_literal(s: Seq<char>, rest: Seq<char>, word: Seq<char>, done: Seq<Seq<char>>)
    ensures
        words_from(
            path_escaped(s) + seq!['\''] + rest,
            Reading::Literal,
            Some(word),
            done,
        ) == words_from(rest, Reading::Bare, Some(word + s), done),
    decreases s.len(),
{
    let text = path_escaped(s) + seq!['\''] + rest;
    if s.len() == 0 {
        assert(text =~= seq!['\''] + rest);
        assert(text.skip(1) =~= rest);
        assert(word + s =~= word);
    } else {
        let tail = path_escaped(s.skip(1)) + seq!['\''] + rest;
        let next = word.push(s[0]);
        lemma_literal(s.skip(1), rest, next, done);
        assert(next + s.skip(1) =~= word + s);
        if s[0] == '\'' {
            assert(text =~= seq!['\'', '\\', '\'', '\''] + tail);
            let a = text.skip(1);
            assert(a =~= seq!['\\', '\'', '\''] + tail);
            let b = a.skip(2);
            assert(b =~= seq!['\''] + tail);
            assert(b.skip(1) =~= tail);
            assert(words_from(text, Reading::Literal, Some(word), done) == words_from(
                a,
                Reading::Bare,
                Some(word),
                done,
            ));
            assert(words_from(a, Reading::Bare, Some(word), done) == words_from(
                b,
                Reading::Bare,
                Some(next),
                done,
            ));
            assert(words_from(b, Reading::Bare, Some(next), done) == words_from(
                tail,
                Reading::Literal,
                Some(next),
                done,
            ));
        } else {
            assert(text =~= seq![s[0]] + tail);
            assert(text.skip(1) =~= tail);
        }
    }
}

pub(crate) proof fn lemma_quoted_word(
    path: Seq<char>,
    rest: Seq<char>,
    done: Seq<Seq<char>>,
)
    ensures
        words_from(quoted(path) + rest, Reading::Bare, None, done) == words_from(
            rest,
            Reading::Bare,
            Some(path),
            done,
        ),
{
    let text = quoted(path) + rest;
    assert(text.skip(1) =~= path_escaped(path) + seq!['\''] + rest);
    lemma_literal(path, rest, Seq::empty(), done);
    assert(Seq::<char>::empty() + path =~= path);
}

proof fn lemma_in_backticks(
    inner: Seq<char>,
    rest: Seq<char>,
    word: Seq<char>,
    done: Seq<Seq<char>>,
)
    requires
        forall|i: int| 0 <= i < inner.len() ==> inner[i] != '`',
    ensures
        words_from(inner + seq!['`'] + rest, Reading::Command, Some(word), done) == words_from(
            rest,
            Reading::Bare,
            Some(word + inner + seq!['`']),
            done,
        ),
    decreases inner.len(),
{
    let text = inner + seq!['`'] + rest;
    if inner.len() == 0 {
        assert(text.skip(1) =~= rest);
        assert(word + inner + seq!['`'] =~= word.push('`'));
    } else {
        assert(text[0] == inner[0]);
        assert(text.skip(1) =~= inner.skip(1) + seq!['`'] + rest);
        lemma_in_backticks(inner.skip(1), rest, word.push(inner[0]), done);
        assert(word.push(inner[0]) + inner.skip(1) + seq!['`'] =~= word + inner + seq!['`']);
    }
}

pub(crate) proof fn lemma_backtick_word(
    inner: Seq<char>,
    rest: Seq<char>,
    done: Seq<Seq<char>>,
)
    requires
        forall|i: int| 0 <= i < inner.len() ==> inner[i] != '`',
    ensures
        words_from(seq!['`'] + inner + seq!['`'] + rest, Reading::Bare, None, done) == words_from(
            rest,
            Reading::Bare,
            Some(seq!['`'] + inner + seq!['`']),
            done,
        ),
{
    let text = seq!['`'] + inner + seq!['`'] + rest;
    assert(text.skip(1) =~= inner + seq!['`'] + rest);
    lemma_in_backticks(inner, rest, seq!['`'], done);
    assert(begun(None).push('`') =~= seq!['`']);
}

} // verus!
