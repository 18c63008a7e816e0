use vstd::prelude::*;
use crate::text::{decimal, has_prefix, push_decimal, starts_with, string_push};

verus! {

/// How one character is written inside a double-quoted script string:
/// backslash, double quote and newline get a backslash escape.
pub open spec fn js_escaped_char(c: char) -> Seq<char> {
    if c == '\\' {
        seq!['\\', '\\']
    } else if c == '"' {
        seq!['\\', '"']
    } else if c == '\n' {
        seq!['\\', 'n']
    } else {
        seq![c]
    }
}

/// `s` written inside a double-quoted script string.
pub open spec fn js_escaped(s: Seq<char>) -> Seq<char>
    decreases s.len(),
{
    if s.len() == 0 {
        Seq::empty()
    } else {
        js_escaped_char(s[0]) + js_escaped(s.drop_first())
    }
}

/// `s` with every double quote preceded by a backslash (and nothing else
/// escaped).
pub open spec fn quotes_escaped(s: Seq<char>) -> Seq<char>
    decreases s.len(),
{
    if s.len() == 0 {
        Seq::empty()
    } else {
        (if s[0] == '"' {
            seq!['\\', '"']
        } else {
            seq![s[0]]
        }) + quotes_escaped(s.drop_first())
    }
}

/// Reads back a double-quoted script string body written by `js_escaped`:
/// a backslash takes the next character, `\n` standing for a newline.
pub open spec fn js_unescaped(s: Seq<char>) -> Seq<char>
    decreases s.len(),
{
    if s.len() >= 2 && s[0] == '\\' {
        seq![if s[1] == 'n' { '\n' } else { s[1] }] + js_unescaped(s.skip(2))
    } else if s.len() >= 1 {
        seq![s[0]] + js_unescaped(s.drop_first())
    } else {
        Seq::empty()
    }
}

/// `t` can stand between the double quotes of a script string literal:
/// every backslash begins a two-character escape, and no double quote or
/// line break stands on its own.
pub open spec fn literal_body_safe(t: Seq<char>) -> bool
    decreases t.len(),
{
    if t.len() == 0 {
        true
    } else if t[0] == '\\' {
        t.len() >= 2 && literal_body_safe(t.skip(2))
    } else {
        t[0] != '"' && t[0] != '\n' && literal_body_safe(t.drop_first())
    }
}

proof fn lemma_js_escaped_push(s: Seq<char>, c: char)
    ensures
        js_escaped(s.push(c)) == js_escaped(s) + js_escaped_char(c),
    decreases s.len(),
{
    if s.len() == 0 {
        assert(s.push(c).drop_first() =~= s);
        assert(js_escaped(s) =~= Seq::<char>::empty());
        assert(js_escaped(s.push(c)) =~= js_escaped_char(c));
    } else {
        assert(s.push(c).drop_first() =~= s.drop_first().push(c));
        lemma_js_escaped_push(s.drop_first(), c);
        assert(js_escaped(s.push(c)) =~= js_escaped(s) + js_escaped_char(c));
    }
}

proof fn lemma_quotes_escaped_push(s: Seq<char>, c: char)
    ensures
        quotes_escaped(s.push(c)) == quotes_escaped(s) + (if c == '"' {
            seq!['\\', '"']
        } else {
            seq![c]
        }),
    decreases s.len(),
{
    if s.len() == 0 {
        assert(s.push(c).drop_first() =~= s);
        assert(quotes_escaped(s) =~= Seq::<char>::empty());
    } else {
        assert(s.push(c).drop_first() =~= s.drop_first().push(c));
        lemma_quotes_escaped_push(s.drop_first(), c);
    }
    assert(quotes_escaped(s.push(c)) =~= quotes_escaped(s) + (if c == '"' {
        seq!['\\', '"']
    } else {
        seq![c]
    }));
}

/// Law: the escaped text is safe inside a double-quoted script string (no
/// lone double quote, no line break, no backslash that is not the start of
/// an escape), and reading it back gives the original text, so a message can
/// neither end the script string early nor change what the page shows.
pub proof fn lemma_js_escape_round_trip(s: Seq<char>)
    ensures
        js_unescaped(js_escaped(s)) == s,
        literal_body_safe(js_escaped(s)),
        !js_escaped(s).contains('\n'),
    decreases s.len(),
{
    if s.len() > 0 {
        lemma_js_escape_round_trip(s.drop_first());
        let head = js_escaped_char(s[0]);
        let rest = js_escaped(s.drop_first());
        let all = head + rest;
        if head.len() == 2 {
            assert(all.skip(2) =~= rest);
        } else {
            assert(all.drop_first() =~= rest);
        }
        assert(js_unescaped(all) =~= s);
        if all.contains('\n') {
            let i = choose|i: int| 0 <= i < all.len() && all[i] == '\n';
            if i >= head.len() {
                assert(rest[i - head.len()] == '\n');
            }
        }
    }
}

/// `msg` escaped for a double-quoted script string: backslash, double quote
/// and newline are written `\\`, `\"` and `\n`.
pub fn js_escape(msg: &str) -> (out: String)
    ensures
        out@ == js_escaped(msg@),
{
    let mut out = String::new();
    for c in it: msg.chars()
        invariant
            it.seq() == msg@,
            out@ == js_escaped(msg@.take(it.index() as int)),
    {
        proof {
            assert(msg@.take(it.index() + 1) =~= msg@.take(it.index() as int).push(c));
            lemma_js_escaped_push(msg@.take(it.index() as int), c);
        }
        if c == '\\' {
            string_push(&mut out, '\\');
            string_push(&mut out, '\\');
        } else if c == '"' {
            string_push(&mut out, '\\');
            string_push(&mut out, '"');
        } else if c == '\n' {
            string_push(&mut out, '\\');
            string_push(&mut out, 'n');
        } else {
            string_push(&mut out, c);
        }
        proof {
            assert(out@ =~= js_escaped(msg@.take(it.index() + 1)));
        }
    }
    proof {
        assert(msg@.take(msg@.len() as int) =~= msg@);
    }
    out
}

/// `text` with every double quote written `\"`.
pub fn escape_quotes(text: &str) -> (out: String)
    ensures
        out@ == quotes_escaped(text@),
{
    let mut out = String::new();
    for c in it: text.chars()
        invariant
            it.seq() == text@,
            out@ == quotes_escaped(text@.take(it.index() as int)),
    {
        proof {
            assert(text@.take(it.index() + 1) =~= text@.take(it.index() as int).push(c));
            lemma_quotes_escaped_push(text@.take(it.index() as int), c);
        }
        if c == '"' {
            string_push(&mut out, '\\');
            string_push(&mut out, '"');
        } else {
            string_push(&mut out, c);
        }
        proof {
            assert(out@ =~= quotes_escaped(text@.take(it.index() + 1)));
        }
    }
    proof {
        assert(text@.take(text@.len() as int) =~= text@);
    }
    out
}

/// The address the local Python server listens on.
pub const SERVER_HOST: &'static str = "127.0.0.1";

/// The call of the page function `func` with one string argument `arg`,
/// guarded so that nothing happens where the page lacks the function.
pub open spec fn guarded_call(func: Seq<char>, arg: Seq<char>, tail: Seq<char>) -> Seq<char> {
    "window."@ + func + " && window."@ + func + "(\""@ + arg + "\""@ + tail + ")"@
}

fn guarded_call_script(func: &str, arg: &str, tail: &str) -> (out: String)
    ensures
        out@ == guarded_call(func@, arg@, tail@),
{
    let mut out = String::from_str("window.");
    out.append(func);
    out.append(" && window.");
    out.append(func);
    out.append("(\"");
    out.append(arg);
    out.append("\"");
    out.append(tail);
    out.append(")");
    proof {
        assert(out@ =~= guarded_call(func@, arg@, tail@));
    }
    out
}

/// The script that shows `msg` as the progress line of the splash screen.
pub fn set_status_script(msg: &str) -> (out: String)
    ensures
        out@ == guarded_call("__hermesSetStatus"@, js_escaped(msg@), ""@),
{
    let esc = js_escape(msg);
    guarded_call_script("__hermesSetStatus", esc.as_str(), "")
}

/// The script that shows `msg` as the error of the splash screen.
pub fn show_error_script(msg: &str) -> (out: String)
    ensures
        out@ == guarded_call("__hermesShowError"@, js_escaped(msg@), ""@),
{
    let esc = js_escape(msg);
    guarded_call_script("__hermesShowError", esc.as_str(), "")
}

/// The script that adds one server output line to the splash screen's log.
pub fn append_log_script(line: &str) -> (out: String)
    ensures
        out@ == guarded_call("__hermesAppendLog"@, js_escaped(line@), ", false"@),
{
    let esc = js_escape(line);
    guarded_call_script("__hermesAppendLog", esc.as_str(), ", false")
}

/// The script that shows the update banner for `version` (only double
/// quotes are escaped in the version).
pub fn show_update_script(version: &str) -> (out: String)
    ensures
        out@ == guarded_call("__hermesShowUpdate"@, quotes_escaped(version@), ""@),
{
    let v = escape_quotes(version);
    guarded_call_script("__hermesShowUpdate", v.as_str(), "")
}

/// The address of the local server on `port`.
pub open spec fn server_address(port: u16) -> Seq<char> {
    "http://"@ + SERVER_HOST@ + ":"@ + decimal(port as nat)
}

/// The script that sends the main window to the local server on `port`.
pub fn navigate_script(port: u16) -> (out: String)
    ensures
        out@ == "window.location='"@ + server_address(port) + "'"@,
{
    let mut out = String::from_str("window.location='http://");
    out.append(SERVER_HOST);
    out.append(":");
    push_decimal(&mut out, port as u64);
    out.append("'");
    proof {
        reveal_strlit("window.location='http://");
        reveal_strlit("window.location='");
        reveal_strlit("http://");
        assert(out@ =~= "window.location='"@ + server_address(port) + "'"@);
    }
    out
}

/// Whether a page the main window finished loading is served by the local
/// server (only those pages get the update banner).
pub fn is_server_page(url: &str) -> (r: bool)
    ensures
        r == has_prefix(url@, "http://127.0.0.1"@),
{
    starts_with(url, "http://127.0.0.1")
}

} // verus!
