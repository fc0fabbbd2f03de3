//! Notification switch and the AppleScript command that posts a notification.

use vstd::prelude::*;
use crate::text;

verus! {

/// Whether notifications are shown. The application keeps one of these for
/// its whole run; notifications start out enabled.
#[derive(Debug, Clone, Copy, PartialEq, Eq, Structural)]
pub struct NotificationState {
    pub enabled: bool,
}

impl NotificationState {
    /// The state at start-up: notifications enabled.
    pub fn new() -> (s: Self)
        ensures
            s.enabled,
    {
        NotificationState { enabled: true }
    }
}

/// Turns notifications on or off.
pub fn set_enabled(state: &mut NotificationState, enabled: bool)
    ensures
        final(state).enabled == enabled,
{
    state.enabled = enabled;
}

/// Whether notifications are currently on.
pub fn is_enabled(state: &NotificationState) -> (b: bool)
    ensures
        b == state.enabled,
{
    state.enabled
}

/// How one character is written inside an AppleScript string literal:
/// backslash and double quote get a backslash before them.
pub open spec fn escaped_char(c: char) -> Seq<char> {
    if c == '\\' {
        seq!['\\', '\\']
    } else if c == '"' {
        seq!['\\', '"']
    } else {
        seq![c]
    }
}

/// `s` written for the inside of an AppleScript string literal.
pub open spec fn escape_quoted(s: Seq<char>) -> Seq<char>
    decreases s.len(),
{
    if s.len() == 0 {
        Seq::<char>::empty()
    } else {
        escaped_char(s[0]) + escape_quoted(s.drop_first())
    }
}

/// The character that AppleScript reads for a backslash followed by `c`:
/// `\n`, `\r` and `\t` stand for line feed, return and tab; any other
/// character stands for itself.
pub open spec fn unescaped_char(c: char) -> char {
    if c == 'n' {
        '\n'
    } else if c == 'r' {
        '\r'
    } else if c == 't' {
        '\t'
    } else {
        c
    }
}

/// How AppleScript reads the inside of a string literal that starts at the
/// beginning of `t`: up to the first double quote that no backslash escapes,
/// reading each backslash and the character after it as one escape. Gives the text
/// read and the number of characters it took, or nothing when no closing
/// quote comes.
pub open spec fn read_quoted(t: Seq<char>) -> Option<(Seq<char>, nat)>
    decreases t.len(),
{
    if t.len() == 0 {
        None
    } else if t[0] == '"' {
        Some((Seq::<char>::empty(), 0))
    } else if t[0] == '\\' {
        if t.len() < 2 {
            None
        } else {
            match read_quoted(t.skip(2)) {
                Some((v, k)) => Some((seq![unescaped_char(t[1])] + v, k + 2)),
                None => None,
            }
        }
    } else {
        match read_quoted(t.drop_first()) {
            Some((v, k)) => Some((seq![t[0]] + v, k + 1)),
            None => None,
        }
    }
}

/// The AppleScript command that posts a notification.
pub open spec fn notification_script(title: Seq<char>, message: Seq<char>) -> Seq<char> {
    "display notification \""@ + escape_quoted(message) + "\" with title \""@ + escape_quoted(title)
        + "\""@
}

proof fn lemma_escape_push(s: Seq<char>, c: char)
    ensures
        escape_quoted(s.push(c)) == escape_quoted(s) + escaped_char(c),
    decreases s.len(),
{
    if s.len() == 0 {
        assert(s.push(c).drop_first() =~= Seq::<char>::empty());
        assert(s.push(c)[0] == c);
        assert(escape_quoted(Seq::<char>::empty()) == Seq::<char>::empty());
        assert(s =~= Seq::<char>::empty());
        assert(escape_quoted(s.push(c)) =~= escape_quoted(s) + escaped_char(c));
    } else {
        assert(s.push(c).drop_first() =~= s.drop_first().push(c));
        lemma_escape_push(s.drop_first(), c);
        assert(escape_quoted(s.push(c)) =~= escape_quoted(s) + escaped_char(c));
    }
}

/// An escaped text, closed by a quote, reads back as the text itself, and
/// the literal ends exactly at that quote, whatever follows it.
pub proof fn lemma_quoted_reads_back(s: Seq<char>, rest: Seq<char>)
    ensures
        read_quoted(escape_quoted(s) + seq!['"'] + rest) == Some((s, escape_quoted(s).len())),
    decreases s.len(),
{
    let t = escape_quoted(s) + seq!['"'] + rest;
    if s.len() == 0 {
        assert(t[0] == '"');
        assert(s =~= Seq::<char>::empty());
    } else {
        let tail = escape_quoted(s.drop_first()) + seq!['"'] + rest;
        lemma_quoted_reads_back(s.drop_first(), rest);
        let c = s[0];
        if c == '\\' || c == '"' {
            assert(t =~= seq!['\\', c] + tail);
            assert(t.skip(2) =~= tail);
        } else {
            assert(t =~= seq![c] + tail);
            assert(t.drop_first() =~= tail);
        }
        assert(seq![c] + s.drop_first() =~= s);
    }
}

/// The title and message reach the notification as given: the script's
/// first string literal reads back as the message and its second as the
/// title.
pub proof fn lemma_script_reads_back(title: Seq<char>, message: Seq<char>)
    ensures
        ({
            let script = notification_script(title, message);
            let head = "display notification \""@.len();
            let m = escape_quoted(message).len();
            let middle = "\" with title \""@.len();
            &&& read_quoted(script.skip(head as int)) == Some((message, m))
            &&& read_quoted(script.skip((head + m + middle) as int)) == Some((title, escape_quoted(title).len()))
        }),
{
    reveal_strlit("display notification \"");
    reveal_strlit("\" with title \"");
    reveal_strlit("\"");
    let script = notification_script(title, message);
    let head = "display notification \""@.len();
    let m = escape_quoted(message).len();
    let middle = "\" with title \""@.len();
    let after_m = " with title \""@;
    reveal_strlit(" with title \"");
    assert("\" with title \""@ =~= seq!['"'] + after_m);
    assert("\""@ =~= seq!['"']);
    assert(script.skip(head as int) =~= escape_quoted(message) + seq!['"'] + (after_m
        + escape_quoted(title) + "\""@));
    lemma_quoted_reads_back(message, after_m + escape_quoted(title) + "\""@);
    assert(script.skip((head + m + middle) as int) =~= escape_quoted(title) + seq!['"'] + Seq::<char>::empty());
    lemma_quoted_reads_back(title, Seq::<char>::empty());
}

/// Appends `s`, escaped for an AppleScript string literal, to `out`.
fn push_escaped(out: &mut Vec<char>, s: &str)
    ensures
        final(out)@ == old(out)@ + escape_quoted(s@),
{
    let chars = text::chars_of(s);
    let ghost start = out@;
    let mut i: usize = 0;
    while i < chars.len()
        invariant
            i <= chars.len(),
            chars@ == s@,
            out@ == start + escape_quoted(chars@.take(i as int)),
        decreases chars.len() - i,
    {
        let c = chars[i];
        if c == '\\' {
            out.push('\\');
            out.push('\\');
        } else if c == '"' {
            out.push('\\');
            out.push('"');
        } else {
            out.push(c);
        }
        proof {
            assert(chars@.take(i + 1) =~= chars@.take(i as int).push(c));
            lemma_escape_push(chars@.take(i as int), c);
            assert(out@ =~= start + escape_quoted(chars@.take(i + 1)));
        }
        i = i + 1;
    }
    assert(chars@.take(chars.len() as int) =~= s@);
}

/// The AppleScript command that posts a notification with this title and
/// message, or nothing when notifications are off. Backslashes and double
/// quotes in the title and message are escaped.
pub fn notification_command(state: &NotificationState, title: &str, message: &str) -> (cmd: Option<
    String,
>)
    ensures
        match cmd {
            Some(c) => state.enabled && c@ == notification_script(title@, message@),
            None => !state.enabled,
        },
{
    if !is_enabled(state) {
        return None;
    }
    let mut out: Vec<char> = Vec::new();
    text::push_str(&mut out, "display notification \"");
    push_escaped(&mut out, message);
    text::push_str(&mut out, "\" with title \"");
    push_escaped(&mut out, title);
    text::push_str(&mut out, "\"");
    assert(out@ =~= notification_script(title@, message@));
    Some(text::string_of(&out))
}

/// Escaping touches only backslashes and double quotes: a text without
/// either is written into the script unchanged.
pub proof fn lemma_escape_plain_unchanged(s: Seq<char>)
    requires
        !s.contains('\\'),
        !s.contains('"'),
    ensures
        escape_quoted(s) == s,
    decreases s.len(),
{
    if s.len() == 0 {
        assert(s =~= Seq::<char>::empty());
    } else {
        assert(s[0] != '\\' && s[0] != '"') by {
            if s[0] == '\\' || s[0] == '"' {
                assert(s.contains(s[0]));
            }
        }
        let rest = s.drop_first();
        assert(!rest.contains('\\') && !rest.contains('"')) by {
            if rest.contains('\\') {
                let i = choose|i: int| 0 <= i < rest.len() && rest[i] == '\\';
                assert(s[i + 1] == '\\');
            }
            if rest.contains('"') {
                let i = choose|i: int| 0 <= i < rest.len() && rest[i] == '"';
                assert(s[i + 1] == '"');
            }
        }
        lemma_escape_plain_unchanged(rest);
        assert(seq![s[0]] + rest =~= s);
    }
}

/// Escaping puts a backslash before exactly the backslashes and double
/// quotes, keeping every other character where it was: each character of
/// the text is followed through, in order, and the escaped text is the
/// escaped prefix followed by the escaped rest.
pub proof fn lemma_escape_concat(a: Seq<char>, b: Seq<char>)
    ensures
        escape_quoted(a + b) == escape_quoted(a) + escape_quoted(b),
    decreases a.len(),
{
    if a.len() == 0 {
        assert(a + b =~= b);
        assert(escape_quoted(a) == Seq::<char>::empty());
        assert(Seq::<char>::empty() + escape_quoted(b) =~= escape_quoted(b));
    } else {
        assert((a + b).drop_first() =~= a.drop_first() + b);
        assert((a + b)[0] == a[0]);
        lemma_escape_concat(a.drop_first(), b);
        assert(escape_quoted(a + b) =~= escape_quoted(a) + escape_quoted(b));
    }
}

/// A title and message without backslashes or double quotes appear in the
/// notification command exactly as given.
pub proof fn lemma_plain_script(title: Seq<char>, message: Seq<char>)
    requires
        !title.contains('\\'),
        !title.contains('"'),
        !message.contains('\\'),
        !message.contains('"'),
    ensures
        notification_script(title, message) == "display notification \""@ + message
            + "\" with title \""@ + title + "\""@,
{
    lemma_escape_plain_unchanged(title);
    lemma_escape_plain_unchanged(message);
}

} // verus!
