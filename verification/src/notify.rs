//! Outbound payloads: the JSON body and URL of a notification call, and
//! the heartbeat line.  The application only puts these bytes on the wire;
//! their content is fixed here.

use vstd::prelude::*;
use vstd::string::*;

use crate::kbutils::KBConfig;

verus! {

/// Lower-case hexadecimal digit for a nibble, as JSON control escapes are
/// written.
pub open spec fn hex_digit_lower(n: int) -> char {
    if n == 0 {
        '0'
    } else if n == 1 {
        '1'
    } else if n == 2 {
        '2'
    } else if n == 3 {
        '3'
    } else if n == 4 {
        '4'
    } else if n == 5 {
        '5'
    } else if n == 6 {
        '6'
    } else if n == 7 {
        '7'
    } else if n == 8 {
        '8'
    } else if n == 9 {
        '9'
    } else if n == 10 {
        'a'
    } else if n == 11 {
        'b'
    } else if n == 12 {
        'c'
    } else if n == 13 {
        'd'
    } else if n == 14 {
        'e'
    } else {
        'f'
    }
}

/// The JSON escape of one character: quote and backslash escaped, the
/// named control escapes, `\u00XX` for the remaining control characters,
/// and every other character written as it is.
pub open spec fn escape_char(c: char) -> Seq<char> {
    if c == '"' {
        seq!['\\', '"']
    } else if c == '\\' {
        seq!['\\', '\\']
    } else if c == '\x08' {
        seq!['\\', 'b']
    } else if c == '\x0c' {
        seq!['\\', 'f']
    } else if c == '\n' {
        seq!['\\', 'n']
    } else if c == '\r' {
        seq!['\\', 'r']
    } else if c == '\t' {
        seq!['\\', 't']
    } else if (c as u32) < 32 {
        seq!['\\', 'u', '0', '0', hex_digit_lower((c as u32) as int / 16), hex_digit_lower(
            (c as u32) as int % 16,
        )]
    } else {
        seq![c]
    }
}

/// A whole text escaped for use inside a JSON string literal.
pub open spec fn json_escaped(s: Seq<char>) -> Seq<char>
    decreases s.len(),
{
    if s.len() == 0 {
        Seq::empty()
    } else {
        json_escaped(s.drop_last()) + escape_char(s.last())
    }
}

fn hex_lower_char(n: u32) -> (c: char)
    requires
        n < 16,
    ensures
        c == hex_digit_lower(n as int),
{
    match n {
        0 => '0',
        1 => '1',
        2 => '2',
        3 => '3',
        4 => '4',
        5 => '5',
        6 => '6',
        7 => '7',
        8 => '8',
        9 => '9',
        10 => 'a',
        11 => 'b',
        12 => 'c',
        13 => 'd',
        14 => 'e',
        _ => 'f',
    }
}

/// Appends the JSON escape of one character.
fn push_escaped(out: &mut String, c: char)
    ensures
        final(out)@ == old(out)@ + escape_char(c),
{
    if c == '"' {
        out.push('\\');
        out.push('"');
    } else if c == '\\' {
        out.push('\\');
        out.push('\\');
    } else if c == '\x08' {
        out.push('\\');
        out.push('b');
    } else if c == '\x0c' {
        out.push('\\');
        out.push('f');
    } else if c == '\n' {
        out.push('\\');
        out.push('n');
    } else if c == '\r' {
        out.push('\\');
        out.push('r');
    } else if c == '\t' {
        out.push('\\');
        out.push('t');
    } else {
        let u = c as u32;
        if u < 32 {
            out.push('\\');
            out.push('u');
            out.push('0');
            out.push('0');
            out.push(hex_lower_char(u / 16));
            out.push(hex_lower_char(u % 16));
        } else {
            out.push(c);
        }
    }
    proof {
        assert(out@ =~= old(out)@ + escape_char(c));
    }
}

/// Escapes a text for use inside a JSON string literal.
pub fn json_escape(s: &str) -> (r: String)
    ensures
        r@ == json_escaped(s@),
{
    let n = s.unicode_len();
    let mut r = String::new();
    let mut i: usize = 0;
    proof {
        assert(s@.subrange(0, 0) =~= Seq::<char>::empty());
        assert(r@ =~= json_escaped(s@.subrange(0, 0)));
    }
    while i < n
        invariant
            n == s@.len(),
            i <= n,
            r@ == json_escaped(s@.subrange(0, i as int)),
        decreases n - i,
    {
        let c = s.get_char(i);
        push_escaped(&mut r, c);
        i = i + 1;
        proof {
            assert(s@.subrange(0, i as int).drop_last() =~= s@.subrange(0, i as int - 1));
            assert(s@.subrange(0, i as int).last() == s@[i as int - 1]);
        }
    }
    proof {
        assert(s@.subrange(0, n as int) =~= s@);
    }
    r
}

/// The JSON body of one notification call: the chat id, the escaped text,
/// and the silence flag.
pub open spec fn notification_body(chat_id: Seq<char>, text: Seq<char>, silent: bool) -> Seq<
    char,
> {
    "{\"chat_id\": \""@ + chat_id + "\", \"text\": \""@ + json_escaped(text)
        + "\", \"disable_notification\": "@ + (if silent {
        "true"@
    } else {
        "false"@
    }) + "}"@
}

/// Why a notification request could not be built.
#[derive(Clone, Copy, PartialEq, Eq, Structural, Debug)]
pub enum NotifyError {
    EmptyMessage,
}

/// Builds the body of one notification call.  Fails exactly on an empty
/// message; transport failures are the application's to log and ignore.
pub fn message_request(config: &KBConfig, message: &str, silent: bool) -> (r: Result<
    String,
    NotifyError,
>)
    ensures
        r is Err <==> message@.len() == 0,
        match r {
            Ok(b) => b@ == notification_body(config.telegram_chat_id@, message@, silent),
            Err(e) => e == NotifyError::EmptyMessage,
        },
{
    if message.is_empty() {
        return Err(NotifyError::EmptyMessage);
    }
    let mut b = String::new();
    b.append("{\"chat_id\": \"");
    b.append(config.telegram_chat_id.as_str());
    b.append("\", \"text\": \"");
    let esc = json_escape(message);
    b.append(esc.as_str());
    b.append("\", \"disable_notification\": ");
    if silent {
        b.append("true");
    } else {
        b.append("false");
    }
    b.append("}");
    proof {
        assert(b@ =~= notification_body(config.telegram_chat_id@, message@, silent));
    }
    Ok(b)
}

/// The endpoint one notification call is posted to, for the configured
/// bot token.
pub fn message_url(config: &KBConfig) -> (r: String)
    ensures
        r@ == "https://api.telegram.org/bot"@ + config.telegram_bot_token@ + "/sendMessage"@,
{
    let mut u = String::new();
    u.append("https://api.telegram.org/bot");
    u.append(config.telegram_bot_token.as_str());
    u.append("/sendMessage");
    proof {
        assert(u@ =~= "https://api.telegram.org/bot"@ + config.telegram_bot_token@
            + "/sendMessage"@);
    }
    u
}

/// Decimal digit of a value below ten.
pub open spec fn dec_digit(n: int) -> char {
    if n == 0 {
        '0'
    } else if n == 1 {
        '1'
    } else if n == 2 {
        '2'
    } else if n == 3 {
        '3'
    } else if n == 4 {
        '4'
    } else if n == 5 {
        '5'
    } else if n == 6 {
        '6'
    } else if n == 7 {
        '7'
    } else if n == 8 {
        '8'
    } else {
        '9'
    }
}

/// Two zero-padded decimal digits.
pub open spec fn dec2(n: int) -> Seq<char> {
    seq![dec_digit(n / 10 % 10), dec_digit(n % 10)]
}

/// Four zero-padded decimal digits.
pub open spec fn dec4(n: int) -> Seq<char> {
    seq![dec_digit(n / 1000 % 10), dec_digit(n / 100 % 10), dec_digit(n / 10 % 10), dec_digit(
        n % 10,
    )]
}

/// One line of the liveness log, for the given local time.
pub open spec fn heartbeat_text(y: int, mo: int, d: int, h: int, mi: int, s: int) -> Seq<char> {
    dec4(y) + seq!['-'] + dec2(mo) + seq!['-'] + dec2(d) + seq![' '] + dec2(h) + seq![':'] + dec2(
        mi,
    ) + seq![':'] + dec2(s) + " : still running"@
}

fn dec_digit_char(n: u16) -> (c: char)
    requires
        n < 10,
    ensures
        c == dec_digit(n as int),
{
    match n {
        0 => '0',
        1 => '1',
        2 => '2',
        3 => '3',
        4 => '4',
        5 => '5',
        6 => '6',
        7 => '7',
        8 => '8',
        _ => '9',
    }
}

fn push_dec2(out: &mut String, n: u16)
    ensures
        final(out)@ == old(out)@ + dec2(n as int),
{
    out.push(dec_digit_char(n / 10 % 10));
    out.push(dec_digit_char(n % 10));
    proof {
        assert(out@ =~= old(out)@ + dec2(n as int));
    }
}

fn push_dec4(out: &mut String, n: u16)
    ensures
        final(out)@ == old(out)@ + dec4(n as int),
{
    out.push(dec_digit_char(n / 1000 % 10));
    out.push(dec_digit_char(n / 100 % 10));
    out.push(dec_digit_char(n / 10 % 10));
    out.push(dec_digit_char(n % 10));
    proof {
        assert(out@ =~= old(out)@ + dec4(n as int));
    }
}

/// Formats one heartbeat line, `YYYY-MM-DD HH:MM:SS : still running`.
/// The application appends it to the liveness log once a minute.
pub fn heartbeat_line(year: u16, month: u8, day: u8, hour: u8, minute: u8, second: u8) -> (r:
    String)
    ensures
        r@ == heartbeat_text(
            year as int,
            month as int,
            day as int,
            hour as int,
            minute as int,
            second as int,
        ),
{
    let mut r = String::new();
    push_dec4(&mut r, year);
    r.push('-');
    push_dec2(&mut r, month as u16);
    r.push('-');
    push_dec2(&mut r, day as u16);
    r.push(' ');
    push_dec2(&mut r, hour as u16);
    r.push(':');
    push_dec2(&mut r, minute as u16);
    r.push(':');
    push_dec2(&mut r, second as u16);
    r.append(" : still running");
    proof {
        assert(r@ =~= heartbeat_text(
            year as int,
            month as int,
            day as int,
            hour as int,
            minute as int,
            second as int,
        ));
    }
    r
}

} // verus!
