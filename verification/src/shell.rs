//! Rendering of argument vectors as one line of POSIX shell.
//!
//! A token is written as it is when every character of it is harmless to the
//! shell, and inside single quotes otherwise. Inside single quotes the shell
//! reads everything literally except the quote itself, so an embedded quote
//! closes the quoted run, is written backslash-escaped, and reopens it.

use vstd::prelude::*;

verus! {

/// Whether `c` may stand unquoted in a shell word: an ASCII letter or digit,
/// or one of `,._+:@%/-`.
pub open spec fn is_safe_char(c: char) -> bool {
    ||| ('a' <= c && c <= 'z')
    ||| ('A' <= c && c <= 'Z')
    ||| ('0' <= c && c <= '9')
    ||| c == ','
    ||| c == '.'
    ||| c == '_'
    ||| c == '+'
    ||| c == ':'
    ||| c == '@'
    ||| c == '%'
    ||| c == '/'
    ||| c == '-'
}

/// Whether every character of `s` may stand unquoted.
pub open spec fn all_safe(s: Seq<char>) -> bool {
    forall|i: int| 0 <= i < s.len() ==> is_safe_char(#[trigger] s[i])
}

/// What one character of a token becomes between single quotes: a quote
/// turns into `'\''`, anything else stays.
pub open spec fn escape_char(c: char) -> Seq<char> {
    if c == '\'' {
        seq!['\'', '\\', '\'', '\'']
    } else {
        seq![c]
    }
}

/// The characters of `s`, each escaped for a single-quoted run.
pub open spec fn escape_quotes(s: Seq<char>) -> Seq<char>
    decreases s.len(),
{
    if s.len() == 0 {
        Seq::empty()
    } else {
        escape_quotes(s.drop_last()) + escape_char(s.last())
    }
}

/// The shell word that stands for the token `s`.
///
/// A non-empty token of safe characters is its own word. Any other token,
/// the empty one included, is written in single quotes.
pub open spec fn quote_token(s: Seq<char>) -> Seq<char> {
    if s.len() > 0 && all_safe(s) {
        s
    } else {
        seq!['\''] + escape_quotes(s) + seq!['\'']
    }
}

/// The words of `tokens`, separated by single spaces.
pub open spec fn shell_join(tokens: Seq<Seq<char>>) -> Seq<char>
    decreases tokens.len(),
{
    if tokens.len() == 0 {
        Seq::empty()
    } else if tokens.len() == 1 {
        quote_token(tokens[0])
    } else {
        shell_join(tokens.drop_last()) + seq![' '] + quote_token(tokens.last())
    }
}

/// The character sequences of a list of string slices.
pub open spec fn token_views(args: Seq<&str>) -> Seq<Seq<char>> {
    Seq::new(args.len(), |i: int| args[i]@)
}

/// `s` without its leading slashes.
pub open spec fn strip_root(s: Seq<char>) -> Seq<char>
    decreases s.len(),
{
    if s.len() > 0 && s[0] == '/' {
        strip_root(s.drop_first())
    } else {
        s
    }
}

/// What is left when the leading slashes are gone does not start with one,
/// and is the end of what was there.
pub proof fn lemma_strip_root(s: Seq<char>)
    ensures
        strip_root(s).len() > 0 ==> strip_root(s)[0] != '/',
        strip_root(s).len() <= s.len(),
        strip_root(s) == s.skip(s.len() - strip_root(s).len()),
        forall|i: int| 0 <= i < s.len() - strip_root(s).len() ==> s[i] == '/',
    decreases s.len(),
{
    if s.len() > 0 && s[0] == '/' {
        let rest = s.drop_first();
        lemma_strip_root(rest);
        let cut = rest.len() - strip_root(rest).len();
        assert(rest.skip(cut) =~= s.skip(cut + 1));
        assert forall|i: int| 0 <= i < s.len() - strip_root(s).len() implies s[i] == '/' by {
            if i > 0 {
                assert(rest[i - 1] == s[i]);
            }
        }
    } else {
        assert(s.skip(0) =~= s);
    }
}

/// Escaping distributes over concatenation.
pub proof fn lemma_escape_quotes_concat(a: Seq<char>, b: Seq<char>)
    ensures
        escape_quotes(a + b) == escape_quotes(a) + escape_quotes(b),
    decreases b.len(),
{
    if b.len() == 0 {
        assert(a + b =~= a);
        assert(escape_quotes(a) + escape_quotes(b) =~= escape_quotes(a));
    } else {
        assert((a + b).drop_last() =~= a + b.drop_last());
        assert((a + b).last() == b.last());
        lemma_escape_quotes_concat(a, b.drop_last());
        assert(escape_quotes(a + b) =~= escape_quotes(a) + escape_quotes(b));
    }
}

/// A run without quotes is left as it is by escaping.
pub proof fn lemma_escape_quotes_plain(s: Seq<char>)
    requires
        forall|i: int| 0 <= i < s.len() ==> s[i] != '\'',
    ensures
        escape_quotes(s) == s,
    decreases s.len(),
{
    if s.len() > 0 {
        lemma_escape_quotes_plain(s.drop_last());
        assert(escape_quotes(s) =~= s);
    }
}

/// What one more token adds to a command: its word, behind a space unless
/// the word is the first.
pub proof fn lemma_shell_join_push(tokens: Seq<Seq<char>>, last: Seq<char>)
    ensures
        shell_join(tokens.push(last)) == if tokens.len() == 0 {
            quote_token(last)
        } else {
            shell_join(tokens) + seq![' '] + quote_token(last)
        },
{
    let all = tokens.push(last);
    assert(all.drop_last() =~= tokens);
    assert(all.last() == last);
    if tokens.len() == 0 {
        assert(all[0] == last);
    }
}

/// What the shell is in the middle of, while it reads a command.
pub ghost enum ShellMode {
    /// Outside of quotes.
    Plain,
    /// Between single quotes.
    Quoted,
    /// Behind a backslash.
    Escaped,
}

/// How far the shell has come in reading a command: the words that are
/// complete, the word that is open, what the shell is in the middle of, and
/// whether everything so far was of the kind that this model knows.
pub ghost struct ShellState {
    pub words: Seq<Seq<char>>,
    pub word: Option<Seq<char>>,
    pub mode: ShellMode,
    pub known: bool,
}

/// The open word of `state`, or the empty word if none is open.
pub open spec fn open_word(state: ShellState) -> Seq<char> {
    match state.word {
        Some(w) => w,
        None => Seq::empty(),
    }
}

/// The state of the shell before it has read anything.
pub open spec fn shell_start() -> ShellState {
    ShellState { words: Seq::empty(), word: None, mode: ShellMode::Plain, known: true }
}

/// What reading the character `c` does to the shell.
///
/// Outside of quotes a space closes the open word, a quote opens a quoted
/// run, a backslash makes the next character stand for itself, and a safe
/// character joins the open word; any other character may mean something to
/// the shell that this model does not know. Between quotes every character
/// but the quote joins the open word, and the quote ends the run. Behind a
/// backslash every character but the end of the line joins the open word.
pub open spec fn shell_step(state: ShellState, c: char) -> ShellState {
    match state.mode {
        ShellMode::Plain => if c == ' ' {
            match state.word {
                Some(w) => ShellState { words: state.words.push(w), word: None, ..state },
                None => state,
            }
        } else if c == '\'' {
            ShellState { word: Some(open_word(state)), mode: ShellMode::Quoted, ..state }
        } else if c == '\\' {
            ShellState { word: Some(open_word(state)), mode: ShellMode::Escaped, ..state }
        } else if is_safe_char(c) {
            ShellState { word: Some(open_word(state).push(c)), ..state }
        } else {
            ShellState { known: false, ..state }
        },
        ShellMode::Quoted => if c == '\'' {
            ShellState { mode: ShellMode::Plain, ..state }
        } else {
            ShellState { word: Some(open_word(state).push(c)), ..state }
        },
        ShellMode::Escaped => if c == '\n' {
            ShellState { known: false, mode: ShellMode::Plain, ..state }
        } else {
            ShellState { word: Some(open_word(state).push(c)), mode: ShellMode::Plain, ..state }
        },
    }
}

/// What reading the characters `input` does to the shell.
pub open spec fn shell_run(state: ShellState, input: Seq<char>) -> ShellState
    decreases input.len(),
{
    if input.len() == 0 {
        state
    } else {
        shell_step(shell_run(state, input.drop_last()), input.last())
    }
}

/// The words that the shell reads from the command `input`, if `input` is
/// a whole command of the kind that this model knows.
pub open spec fn shell_words(input: Seq<char>) -> Option<Seq<Seq<char>>> {
    let end = shell_run(shell_start(), input);
    if end.known && end.mode is Plain {
        Some(
            match end.word {
                Some(w) => end.words.push(w),
                None => end.words,
            },
        )
    } else {
        None
    }
}

/// Reading one text and then another is reading the two as one.
pub proof fn lemma_shell_run_concat(state: ShellState, a: Seq<char>, b: Seq<char>)
    ensures
        shell_run(state, a + b) == shell_run(shell_run(state, a), b),
    decreases b.len(),
{
    if b.len() == 0 {
        assert(a + b =~= a);
    } else {
        assert((a + b).drop_last() =~= a + b.drop_last());
        assert((a + b).last() == b.last());
        lemma_shell_run_concat(state, a, b.drop_last());
    }
}

/// Reading one character is one step.
pub proof fn lemma_shell_run_one(state: ShellState, c: char)
    ensures
        shell_run(state, seq![c]) == shell_step(state, c),
{
    assert(seq![c].drop_last() =~= Seq::<char>::empty());
    assert(shell_run(state, seq![c].drop_last()) == state);
}

/// Outside of quotes, safe characters join the open word.
pub proof fn lemma_shell_run_safe(state: ShellState, text: Seq<char>)
    requires
        state.mode is Plain,
        all_safe(text),
        text.len() > 0,
    ensures
        shell_run(state, text) == (ShellState { word: Some(open_word(state) + text), ..state }),
    decreases text.len(),
{
    let head = text.drop_last();
    let c = text.last();
    assert(is_safe_char(text[text.len() - 1]));
    if head.len() == 0 {
        assert(shell_run(state, head) == state);
        assert(open_word(state).push(c) =~= open_word(state) + text);
    } else {
        assert forall|i: int| 0 <= i < head.len() implies is_safe_char(#[trigger] head[i]) by {
            assert(head[i] == text[i]);
        }
        lemma_shell_run_safe(state, head);
        assert((open_word(state) + head).push(c) =~= open_word(state) + text);
    }
}

/// Between quotes, the escaped form of a text joins the open word as the
/// text itself.
pub proof fn lemma_shell_run_escaped(state: ShellState, text: Seq<char>)
    requires
        state.mode is Quoted,
        state.word is Some,
    ensures
        shell_run(state, escape_quotes(text)) == (ShellState {
            word: Some(open_word(state) + text),
            ..state
        }),
    decreases text.len(),
{
    if text.len() == 0 {
        assert(open_word(state) + text =~= open_word(state));
    } else {
        let head = text.drop_last();
        let c = text.last();
        lemma_shell_run_escaped(state, head);
        let middle = shell_run(state, escape_quotes(head));
        lemma_shell_run_concat(state, escape_quotes(head), escape_char(c));
        let w = open_word(state) + head;
        assert(w.push(c) =~= open_word(state) + text);
        if c == '\'' {
            let one = seq!['\''];
            let two = seq!['\'', '\\'];
            let three = seq!['\'', '\\', '\''];
            let four = escape_char(c);
            assert(two.drop_last() =~= one);
            assert(three.drop_last() =~= two);
            assert(four.drop_last() =~= three);
            lemma_shell_run_one(middle, '\'');
            assert(shell_run(middle, one).mode is Plain);
            assert(shell_run(middle, two).mode is Escaped);
            assert(shell_run(middle, three).mode is Plain);
            assert(shell_run(middle, three).word == Some(w.push(c)));
            assert(shell_run(middle, four).mode is Quoted);
        } else {
            lemma_shell_run_one(middle, c);
        }
    }
}

/// The shell reads the word of a token as the token.
pub proof fn lemma_shell_reads_token(state: ShellState, token: Seq<char>)
    requires
        state.mode is Plain,
        state.word is None,
    ensures
        shell_run(state, quote_token(token)) == (ShellState { word: Some(token), ..state }),
{
    if token.len() > 0 && all_safe(token) {
        lemma_shell_run_safe(state, token);
        assert(open_word(state) + token =~= token);
    } else {
        let quote = seq!['\''];
        let opened = shell_step(state, '\'');
        lemma_shell_run_one(state, '\'');
        lemma_shell_run_concat(state, quote, escape_quotes(token));
        lemma_shell_run_escaped(opened, token);
        lemma_shell_run_concat(state, quote + escape_quotes(token), quote);
        let inside = shell_run(opened, escape_quotes(token));
        lemma_shell_run_one(inside, '\'');
        assert(open_word(opened) + token =~= token);
    }
}

/// After the command of some tokens, the shell has read all of them but the
/// last as words, and has the last as its open word.
pub proof fn lemma_shell_reads_join(tokens: Seq<Seq<char>>)
    requires
        tokens.len() > 0,
    ensures
        shell_run(shell_start(), shell_join(tokens)) == (ShellState {
            words: tokens.drop_last(),
            word: Some(tokens.last()),
            mode: ShellMode::Plain,
            known: true,
        }),
    decreases tokens.len(),
{
    if tokens.len() == 1 {
        lemma_shell_reads_token(shell_start(), tokens[0]);
        assert(tokens.drop_last() =~= Seq::<Seq<char>>::empty());
    } else {
        let head = tokens.drop_last();
        lemma_shell_reads_join(head);
        let after_head = shell_run(shell_start(), shell_join(head));
        lemma_shell_run_concat(shell_start(), shell_join(head), seq![' ']);
        lemma_shell_run_one(after_head, ' ');
        let after_space = shell_step(after_head, ' ');
        assert(head.drop_last().push(head.last()) =~= head);
        lemma_shell_run_concat(
            shell_start(),
            shell_join(head) + seq![' '],
            quote_token(tokens.last()),
        );
        lemma_shell_reads_token(after_space, tokens.last());
    }
}

/// A command that is rendered from tokens is read back by the shell as
/// these tokens: none is split, joined, or changed, whatever it holds.
pub proof fn lemma_shell_round_trip(tokens: Seq<Seq<char>>)
    ensures
        shell_words(shell_join(tokens)) == Some(tokens),
{
    if tokens.len() == 0 {
        assert(shell_run(shell_start(), shell_join(tokens)) == shell_start());
    } else {
        lemma_shell_reads_join(tokens);
        assert(tokens.drop_last().push(tokens.last()) =~= tokens);
    }
}

/// Decides `is_safe_char`.
pub fn safe_char(c: char) -> (r: bool)
    ensures
        r == is_safe_char(c),
{
    (c >= 'a' && c <= 'z') || (c >= 'A' && c <= 'Z') || (c >= '0' && c <= '9') || c == ','
        || c == '.' || c == '_' || c == '+' || c == ':' || c == '@' || c == '%' || c == '/'
        || c == '-'
}

/// Appends to `out` the shell word for `token`.
pub fn push_quoted(out: &mut String, token: &str)
    ensures
        final(out)@ == old(out)@ + quote_token(token@),
{
    let n = token.unicode_len();
    let mut safe = n > 0;
    let mut i: usize = 0;
    while i < n
        invariant
            n == token@.len(),
            i <= n,
            safe == (n > 0 && all_safe(token@.take(i as int))),
        decreases n - i,
    {
        let c = token.get_char(i);
        proof {
            let before = token@.take(i as int);
            let after = token@.take(i + 1);
            assert(after.drop_last() =~= before);
            assert(after.last() == c);
            if all_safe(after) {
                assert forall|j: int| 0 <= j < before.len() implies is_safe_char(
                    #[trigger] before[j],
                ) by {
                    assert(before[j] == after[j]);
                }
                assert(is_safe_char(after[i as int]));
            }
            if all_safe(before) && is_safe_char(c) {
                assert forall|j: int| 0 <= j < after.len() implies is_safe_char(
                    #[trigger] after[j],
                ) by {
                    if j < i {
                        assert(after[j] == before[j]);
                    }
                }
            }
        }
        if !safe_char(c) {
            safe = false;
        }
        i = i + 1;
    }
    assert(token@.take(n as int) =~= token@);
    if safe {
        out.append(token);
        return ;
    }
    let ghost start = out@;
    out.append("'");
    proof {
        reveal_strlit("'");
        assert(out@ =~= start + seq!['\''] + escape_quotes(token@.take(0)));
    }
    let mut from: usize = 0;
    let mut at: usize = 0;
    while at < n
        invariant
            n == token@.len(),
            from <= at <= n,
            forall|j: int| from <= j < at ==> token@[j] != '\'',
            out@ == start + seq!['\''] + escape_quotes(token@.take(from as int)),
        decreases n - at,
    {
        let c = token.get_char(at);
        if c == '\'' {
            let run = token.substring_char(from, at);
            let ghost before = out@;
            out.append(run);
            out.append("'\\''");
            proof {
                reveal_strlit("'\\''");
                let head = token@.take(from as int);
                let next = token@.take(at + 1);
                assert(run@ =~= token@.subrange(from as int, at as int));
                lemma_escape_quotes_plain(run@);
                assert(next =~= (head + run@) + seq!['\'']);
                lemma_escape_quotes_concat(head + run@, seq!['\'']);
                lemma_escape_quotes_concat(head, run@);
                assert(seq!['\''].drop_last() =~= Seq::<char>::empty());
                assert(escape_quotes(seq!['\'']) =~= escape_char('\'')) by {
                    assert(escape_quotes(seq!['\''].drop_last()) =~= Seq::<char>::empty());
                }
                assert("'\\''"@ =~= escape_char('\''));
                assert(out@ =~= start + seq!['\''] + escape_quotes(next));
            }
            from = at + 1;
        }
        at = at + 1;
    }
    let run = token.substring_char(from, n);
    out.append(run);
    out.append("'");
    proof {
        let head = token@.take(from as int);
        assert(run@ =~= token@.subrange(from as int, n as int));
        lemma_escape_quotes_plain(run@);
        lemma_escape_quotes_concat(head, run@);
        assert(head + run@ =~= token@);
        assert(out@ =~= start + quote_token(token@));
    }
}

/// Renders an argument vector as one shell command: each token as its shell
/// word, the words separated by single spaces.
pub fn shell_string(args: &[&str]) -> (out: String)
    ensures
        out@ == shell_join(token_views(args@)),
{
    let mut out = String::new();
    let mut i: usize = 0;
    while i < args.len()
        invariant
            i <= args.len(),
            out@ == shell_join(token_views(args@).take(i as int)),
        decreases args.len() - i,
    {
        let ghost before = token_views(args@).take(i as int);
        let ghost after = token_views(args@).take(i + 1);
        if i > 0 {
            out.append(" ");
        }
        push_quoted(&mut out, args[i]);
        proof {
            reveal_strlit(" ");
            assert(after.drop_last() =~= before);
            assert(after.last() == args[i as int]@);
            if i > 0 {
                assert(out@ =~= shell_join(before) + seq![' '] + quote_token(after.last()));
            } else {
                assert(before.len() == 0);
                assert(out@ =~= quote_token(after[0]));
            }
        }
        i = i + 1;
    }
    assert(token_views(args@).take(args.len() as int) =~= token_views(args@));
    out
}

/// Strips every leading `/` from `s`, which makes a path relative: what is
/// left is the end of `s`, does not start with a slash, and lacks nothing
/// but slashes.
pub fn rootless<'a>(s: &'a str) -> (r: &'a str)
    ensures
        r@ == strip_root(s@),
        r@.len() > 0 ==> r@[0] != '/',
        r@.len() <= s@.len(),
        r@ == s@.skip(s@.len() - r@.len()),
        forall|i: int| 0 <= i < s@.len() - r@.len() ==> s@[i] == '/',
{
    proof {
        lemma_strip_root(s@);
    }
    let n = s.unicode_len();
    let mut i: usize = 0;
    assert(s@.skip(0) =~= s@);
    while i < n && s.get_char(i) == '/'
        invariant
            n == s@.len(),
            i <= n,
            strip_root(s@) == strip_root(s@.skip(i as int)),
        decreases n - i,
    {
        proof {
            let rest = s@.skip(i as int);
            assert(rest[0] == '/');
            assert(rest.drop_first() =~= s@.skip(i + 1));
        }
        i = i + 1;
    }
    proof {
        let rest = s@.skip(i as int);
        assert(s@.subrange(i as int, n as int) =~= rest);
        if i < n {
            assert(rest[0] == s@[i as int]);
        }
    }
    s.substring_char(i, n)
}

} // verus!
