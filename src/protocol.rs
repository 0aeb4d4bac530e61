use crate::error::{Errors, GpsError};
use crate::local_monitor::AsIfPixel;
use crate::support_type::{
    color_mask, peripheral_of, side_name, structured_event, ColorId, Event, PeripheralType, Side,
};
use crate::text::{string_of, 
    chars_of, decimal, lemma_split_nonempty, parse_truncated, parse_unsigned, push_decimal,
    same_text, split_fields, split_spaces, truncated_number, unsigned_value,
};
use vstd::prelude::*;
use vstd::string::*;

verus! {

broadcast use vstd::string::group_string_axioms;

/// What the transport reported for one attempt to send a message.
pub enum SendOutcome {
    Sent,
    /// No answer from the transport within the time limit.
    TimedOut,
    /// The transport failed; the text describes the failure.
    Failed(String),
}

/// What the transport delivered for one attempt to receive a message.
pub enum ReceiveOutcome {
    Text(String),
    Binary,
    Ping,
    Pong,
    Close,
    /// The transport failed; the text describes the failure.
    Failed(String),
    /// The stream of messages ended.
    Ended,
    /// No message within the time limit.
    TimedOut,
}

/// Checked before any I/O: a closed connection fails at once.
pub fn check_open(closed: bool) -> (r: Result<(), Errors>)
    ensures
        closed ==> r matches Err(Errors::WebSocketClosed),
        !closed ==> r is Ok,
{
    if closed {
        Err(Errors::WebSocketClosed)
    } else {
        Ok(())
    }
}

/// Settles one send: a time-out or a transport failure closes the
/// connection and fails the send.
pub fn settle_send(closed: &mut bool, outcome: SendOutcome) -> (r: Result<(), Errors>)
    ensures
        outcome is Sent ==> r is Ok && *final(closed) == *old(closed),
        outcome is TimedOut ==> (r matches Err(Errors::WebSocketClosed)) && *final(closed),
        outcome matches SendOutcome::Failed(e) ==> r == Err::<(), Errors>(Errors::Transport(e))
            && *final(closed),
{
    match outcome {
        SendOutcome::Sent => Ok(()),
        SendOutcome::TimedOut => {
            *closed = true;
            Err(Errors::WebSocketClosed)
        },
        SendOutcome::Failed(e) => {
            *closed = true;
            Err(Errors::Transport(e))
        },
    }
}

/// Settles one receive: only a text message succeeds; every other outcome
/// closes the connection.
pub fn settle_receive(closed: &mut bool, outcome: ReceiveOutcome) -> (r: Result<String, Errors>)
    ensures
        outcome matches ReceiveOutcome::Text(t) ==> r == Ok::<String, Errors>(t) && *final(closed)
            == *old(closed),
        !(outcome is Text) ==> r is Err && *final(closed),
        outcome is Binary ==> (r matches Err(Errors::WrongMessageType(k)) && k@ == "Binary"@),
        outcome is Ping ==> (r matches Err(Errors::WrongMessageType(k)) && k@ == "Ping"@),
        outcome is Pong ==> (r matches Err(Errors::WrongMessageType(k)) && k@ == "Pong"@),
        outcome is Close ==> (r matches Err(Errors::WrongMessageType(k)) && k@ == "Close"@),
        outcome matches ReceiveOutcome::Failed(e) ==> r == Err::<String, Errors>(
            Errors::Transport(e),
        ),
        (outcome is Ended || outcome is TimedOut) ==> r matches Err(Errors::WebSocketClosed),
{
    match outcome {
        ReceiveOutcome::Text(t) => Ok(t),
        ReceiveOutcome::Binary => {
            *closed = true;
            Err(Errors::WrongMessageType("Binary"))
        },
        ReceiveOutcome::Ping => {
            *closed = true;
            Err(Errors::WrongMessageType("Ping"))
        },
        ReceiveOutcome::Pong => {
            *closed = true;
            Err(Errors::WrongMessageType("Pong"))
        },
        ReceiveOutcome::Close => {
            *closed = true;
            Err(Errors::WrongMessageType("Close"))
        },
        ReceiveOutcome::Failed(e) => {
            *closed = true;
            Err(Errors::Transport(e))
        },
        ReceiveOutcome::Ended => {
            *closed = true;
            Err(Errors::WebSocketClosed)
        },
        ReceiveOutcome::TimedOut => {
            *closed = true;
            Err(Errors::WebSocketClosed)
        },
    }
}

/// Appends a literal.
fn push_text(out: &mut String, s: &str)
    ensures
        final(out)@ == old(out)@ + s@,
{
    out.append(s);
}

/// Appends a space and the decimal writing of `n`.
fn push_field(out: &mut String, n: u64)
    ensures
        final(out)@ == old(out)@ + " "@ + decimal(n as nat),
{
    proof {
        reveal_strlit(" ");
    }
    out.push(' ');
    push_decimal(out, n);
    assert(final(out)@ =~= old(out)@ + " "@ + decimal(n as nat));
}

/// `verb side`.
fn side_request(verb: &str, side: Side) -> (r: String)
    ensures
        r@ == verb@ + " "@ + side_name(side),
{
    let mut out = String::from_str(verb);
    proof {
        reveal_strlit(" ");
    }
    out.push(' ');
    push_text(&mut out, side.name());
    assert(out@ =~= verb@ + " "@ + side_name(side));
    out
}

pub fn get_redstone_request(side: Side) -> (r: String)
    ensures
        r@ == "g_rs "@ + side_name(side),
{
    let r = side_request("g_rs", side);
    proof {
        reveal_strlit("g_rs");
        reveal_strlit(" ");
        reveal_strlit("g_rs ");
    }
    assert(r@ =~= "g_rs "@ + side_name(side));
    r
}

/// The request that sets a redstone output; a level outside `0..=15` is
/// refused before anything is sent.
pub fn set_redstone_request(side: Side, level: i32) -> (r: Result<String, Errors>)
    ensures
        0 <= level <= 15 ==> (r matches Ok(m) && m@ == "s_rs "@ + side_name(side) + " "@
            + decimal(level as nat)),
        !(0 <= level <= 15) ==> r == Err::<String, Errors>(Errors::InvalidRedstoneLevel(level)),
{
    if level < 0 || level > 15 {
        return Err(Errors::InvalidRedstoneLevel(level));
    }
    let mut out = side_request("s_rs", side);
    push_field(&mut out, level as u64);
    proof {
        reveal_strlit("s_rs");
        reveal_strlit(" ");
        reveal_strlit("s_rs ");
    }
    assert(out@ =~= "s_rs "@ + side_name(side) + " "@ + decimal(level as nat));
    Ok(out)
}

pub fn gps_locate_request() -> (r: String)
    ensures
        r@ == "gps_loc"@,
{
    String::from_str("gps_loc")
}

pub fn pull_event_request() -> (r: String)
    ensures
        r@ == "evt"@,
{
    String::from_str("evt")
}

pub fn get_peripheral_request(side: Side) -> (r: String)
    ensures
        r@ == "g_peri "@ + side_name(side),
{
    let r = side_request("g_peri", side);
    proof {
        reveal_strlit("g_peri");
        reveal_strlit(" ");
        reveal_strlit("g_peri ");
    }
    assert(r@ =~= "g_peri "@ + side_name(side));
    r
}

pub fn monitor_get_size_request(side: Side) -> (r: String)
    ensures
        r@ == "m_g_sz "@ + side_name(side),
{
    let r = side_request("m_g_sz", side);
    proof {
        reveal_strlit("m_g_sz");
        reveal_strlit(" ");
        reveal_strlit("m_g_sz ");
    }
    assert(r@ =~= "m_g_sz "@ + side_name(side));
    r
}

pub open spec fn bool_text(b: bool) -> Seq<char> {
    if b {
        "true"@
    } else {
        "false"@
    }
}

/// A space cannot end a line on the wire, so it travels as `_`.
pub open spec fn wire_char(c: char) -> char {
    if c == ' ' {
        '_'
    } else {
        c
    }
}

pub open spec fn colors_text(x: nat, y: nat, background: ColorId, foreground: ColorId) -> Seq<
    char,
> {
    " "@ + decimal(x) + " "@ + decimal(y) + " "@ + decimal(color_mask(background) as nat) + " "@
        + decimal(color_mask(foreground) as nat)
}

/// ` x y background foreground is_space char` for one cell.
pub open spec fn cell_text(x: nat, y: nat, background: ColorId, foreground: ColorId, c: char) -> Seq<
    char,
> {
    colors_text(x, y, background, foreground) + " "@ + bool_text(c == ' ') + " "@ + seq![
        wire_char(c),
    ]
}

/// The cells of a batched write, one after the other.
pub open spec fn cells_text(p: Seq<(usize, usize, AsIfPixel)>) -> Seq<char>
    decreases p.len(),
{
    if p.len() == 0 {
        Seq::<char>::empty()
    } else {
        let (x, y, px) = p.last();
        cells_text(p.drop_last()) + cell_text(
            x as nat,
            y as nat,
            px.back_color(),
            px.fore_color(),
            px.glyph(),
        )
    }
}

fn push_colors(out: &mut String, x: usize, y: usize, background: ColorId, foreground: ColorId)
    ensures
        final(out)@ == old(out)@ + colors_text(x as nat, y as nat, background, foreground),
{
    let ghost start = out@;
    push_field(out, x as u64);
    push_field(out, y as u64);
    push_field(out, background.to_number() as u64);
    push_field(out, foreground.to_number() as u64);
    assert(out@ =~= start + colors_text(x as nat, y as nat, background, foreground));
}

fn push_cell(out: &mut String, x: usize, y: usize, background: ColorId, foreground: ColorId, c: char)
    ensures
        final(out)@ == old(out)@ + cell_text(x as nat, y as nat, background, foreground, c),
{
    let ghost start = out@;
    push_colors(out, x, y, background, foreground);
    proof {
        reveal_strlit(" ");
        reveal_strlit("true");
        reveal_strlit("false");
    }
    out.push(' ');
    if c == ' ' {
        push_text(out, "true");
    } else {
        push_text(out, "false");
    }
    out.push(' ');
    out.push(if c == ' ' { '_' } else { c });
    assert(out@ =~= start + cell_text(x as nat, y as nat, background, foreground, c));
}

/// A write of one character at `x y`; a character outside ASCII is refused
/// before anything is sent.
pub fn monitor_write_request(
    side: Side,
    x: usize,
    y: usize,
    background_color: ColorId,
    text_color: ColorId,
    text: char,
) -> (r: Result<String, Errors>)
    ensures
        (text as u32) < 128 ==> (r matches Ok(m) && m@ == "m_w_at_c_sig "@ + side_name(side)
            + cell_text(x as nat, y as nat, background_color, text_color, text)),
        (text as u32) >= 128 ==> r == Err::<String, Errors>(Errors::InvalidChar(text)),
{
    if (text as u32) >= 128 {
        return Err(Errors::InvalidChar(text));
    }
    let mut out = side_request("m_w_at_c_sig", side);
    let ghost head = out@;
    push_cell(&mut out, x, y, background_color, text_color, text);
    proof {
        reveal_strlit("m_w_at_c_sig");
        reveal_strlit(" ");
        reveal_strlit("m_w_at_c_sig ");
    }
    assert(out@ =~= "m_w_at_c_sig "@ + side_name(side) + cell_text(
        x as nat,
        y as nat,
        background_color,
        text_color,
        text,
    ));
    Ok(out)
}

/// The two messages of a string write: the command line, then the text.
pub fn monitor_write_string_request(
    side: Side,
    x: usize,
    y: usize,
    background_color: ColorId,
    text_color: ColorId,
    text: &str,
) -> (r: (String, String))
    ensures
        r.0@ == "m_w_at_c "@ + side_name(side) + colors_text(
            x as nat,
            y as nat,
            background_color,
            text_color,
        ),
        r.1@ == text@,
{
    let mut out = side_request("m_w_at_c", side);
    push_colors(&mut out, x, y, background_color, text_color);
    proof {
        reveal_strlit("m_w_at_c");
        reveal_strlit(" ");
        reveal_strlit("m_w_at_c ");
    }
    assert(out@ =~= "m_w_at_c "@ + side_name(side) + colors_text(
        x as nat,
        y as nat,
        background_color,
        text_color,
    ));
    (out, text.to_owned())
}

/// One message that writes every given cell: `msm count side` followed by
/// the fields of each cell.
pub fn monitor_write_multi_request(side: Side, pixels: &[(usize, usize, AsIfPixel)]) -> (r: String)
    ensures
        r@ == "msm "@ + decimal(pixels@.len()) + " "@ + side_name(side) + cells_text(pixels@),
{
    let mut out = String::from_str("msm");
    push_field(&mut out, pixels.len() as u64);
    proof {
        reveal_strlit(" ");
    }
    out.push(' ');
    push_text(&mut out, side.name());
    let ghost head = out@;
    let mut i: usize = 0;
    while i < pixels.len()
        invariant
            i <= pixels@.len(),
            out@ == head + cells_text(pixels@.take(i as int)),
        decreases pixels@.len() - i,
    {
        let (x, y, px) = pixels[i];
        push_cell(&mut out, x, y, px.background(), px.foreground(), px.text());
        proof {
            assert(pixels@.take(i + 1).drop_last() =~= pixels@.take(i as int));
        }
        i = i + 1;
        assert(out@ =~= head + cells_text(pixels@.take(i as int)));
    }
    proof {
        reveal_strlit("msm");
        reveal_strlit("msm ");
        assert(pixels@.take(pixels@.len() as int) =~= pixels@);
    }
    assert(out@ =~= "msm "@ + decimal(pixels@.len()) + " "@ + side_name(side) + cells_text(
        pixels@,
    ));
    out
}

/// The reading of a redstone input: a decimal number, truncated.
pub fn decode_redstone(reply: &str) -> (r: Result<i32, Errors>)
    ensures
        truncated_number(reply@) matches Some(v) ==> r == Ok::<i32, Errors>(v as i32),
        truncated_number(reply@) is None ==> (r matches Err(Errors::ParseFloatError(t)) && t@
            == reply@),
{
    let chars = chars_of(reply);
    match parse_truncated(&chars) {
        Some(v) => Ok(v),
        None => Err(Errors::ParseFloatError(reply.to_owned())),
    }
}

/// `none`, or the name of a peripheral type.
pub fn decode_peripheral(reply: &str) -> (r: Result<Option<PeripheralType>, Errors>)
    ensures
        reply@ == "none"@ ==> r == Ok::<Option<PeripheralType>, Errors>(None),
        reply@ != "none"@ && peripheral_of(reply@) is Some ==> r == Ok::<
            Option<PeripheralType>,
            Errors,
        >(peripheral_of(reply@)),
        reply@ != "none"@ && peripheral_of(reply@) is None ==> (r matches Err(
            Errors::InvalidPeripheralType(t),
        ) && t@ == reply@),
{
    let chars = chars_of(reply);
    if same_text(&chars, "none") {
        return Ok(None);
    }
    match PeripheralType::from_name(reply) {
        Ok(p) => Ok(Some(p)),
        Err(e) => Err(e),
    }
}

/// `none`, or an event line.
pub fn decode_event(reply: &str) -> (r: Option<Event>)
    ensures
        reply@ == "none"@ ==> r is None,
        reply@ != "none"@ && structured_event(reply@) is Some ==> r == Some(
            structured_event(reply@)->0,
        ),
        reply@ != "none"@ && structured_event(reply@) is None ==> (r matches Some(Event::Other(t))
            && t@ == reply@),
{
    let chars = chars_of(reply);
    if same_text(&chars, "none") {
        None
    } else {
        Some(Event::decode(reply))
    }
}

pub open spec fn usize_of(s: Seq<char>) -> Option<usize> {
    match unsigned_value(s) {
        Some(v) => if v <= usize::MAX {
            Some(v as usize)
        } else {
            None
        },
        None => None,
    }
}

/// What a size reply decodes to: `none`, or a width and a height.
pub open spec fn monitor_size_reply(s: Seq<char>) -> Option<Option<(usize, usize)>> {
    if s == "none"@ {
        Some(None)
    } else {
        let f = split_fields(s);
        if f.len() >= 2 && usize_of(f[0]) is Some && usize_of(f[1]) is Some {
            Some(Some((usize_of(f[0])->0, usize_of(f[1])->0)))
        } else {
            None
        }
    }
}

fn read_usize(s: &Vec<char>) -> (r: Result<usize, Errors>)
    ensures
        usize_of(s@) matches Some(v) ==> r == Ok::<usize, Errors>(v),
        usize_of(s@) is None ==> (r matches Err(Errors::ParseIntError(t)) && t@ == s@),
{
    match parse_unsigned(s, usize::MAX as u64) {
        Some(v) => Ok(v as usize),
        None => Err(Errors::ParseIntError(string_of(s))),
    }
}

/// `none`, or `width height`. A field that is not a number fails with the
/// text of that field; a missing height fails as a missing value.
pub fn decode_monitor_size(reply: &str) -> (r: Result<Option<(usize, usize)>, Errors>)
    ensures
        monitor_size_reply(reply@) matches Some(v) ==> r == Ok::<
            Option<(usize, usize)>,
            Errors,
        >(v),
        monitor_size_reply(reply@) is None ==> r is Err,
        usize_of(split_fields(reply@)[0]) is None && reply@ != "none"@ ==> (r matches Err(
            Errors::ParseIntError(t),
        ) && t@ == split_fields(reply@)[0]),
        usize_of(split_fields(reply@)[0]) is Some && split_fields(reply@).len() < 2 && reply@
            != "none"@ ==> (r matches Err(Errors::NoneValue)),
        usize_of(split_fields(reply@)[0]) is Some && split_fields(reply@).len() >= 2 && usize_of(
            split_fields(reply@)[1],
        ) is None && reply@ != "none"@ ==> (r matches Err(Errors::ParseIntError(t)) && t@
            == split_fields(reply@)[1]),
{
    let chars = chars_of(reply);
    if same_text(&chars, "none") {
        return Ok(None);
    }
    let f = split_spaces(&chars);
    proof {
        lemma_split_nonempty(chars@);
    }
    let w = match read_usize(&f[0]) {
        Ok(w) => w,
        Err(e) => {
            return Err(e);
        },
    };
    if f.len() < 2 {
        return Err(Errors::NoneValue);
    }
    let h = match read_usize(&f[1]) {
        Ok(h) => h,
        Err(e) => {
            return Err(e);
        },
    };
    Ok(Some((w, h)))
}

/// The three coordinate fields of a gps reply, still as text; `failed`, or
/// any other number of fields, is a gps error.
pub fn decode_gps(reply: &str) -> (r: Result<(String, String, String), Errors>)
    ensures
        reply@ == "failed"@ ==> (r matches Err(Errors::GPSError(GpsError::Failed))),
        reply@ != "failed"@ && split_fields(reply@).len() != 3 ==> (r matches Err(
            Errors::GPSError(GpsError::Other),
        )),
        reply@ != "failed"@ && split_fields(reply@).len() == 3 ==> (r matches Ok((a, b, c)) && a@
            == split_fields(reply@)[0] && b@ == split_fields(reply@)[1] && c@ == split_fields(
            reply@,
        )[2]),
{
    let chars = chars_of(reply);
    if same_text(&chars, "failed") {
        return Err(Errors::GPSError(GpsError::Failed));
    }
    let f = split_spaces(&chars);
    if f.len() != 3 {
        return Err(Errors::GPSError(GpsError::Other));
    }
    Ok((string_of(&f[0]), string_of(&f[1]), string_of(&f[2])))
}

/// What to do with a new connection after one message of its handshake.
pub enum HandshakeStep {
    /// The connection named itself: register it under this id.
    Register(String),
    /// A ping or a pong: wait for the next message.
    Wait,
    /// Anything else: drop the connection unregistered.
    Drop,
}

/// The first text message of a connection must be `id <name>`.
pub fn handshake(outcome: ReceiveOutcome) -> (r: HandshakeStep)
    ensures
        outcome matches ReceiveOutcome::Text(t) ==> ({
            let f = split_fields(t@);
            if f[0] == "id"@ && f.len() >= 2 {
                r matches HandshakeStep::Register(id) && id@ == f[1]
            } else {
                r is Drop
            }
        }),
        (outcome is Ping || outcome is Pong) ==> r is Wait,
        !(outcome is Text || outcome is Ping || outcome is Pong) ==> r is Drop,
{
    match outcome {
        ReceiveOutcome::Text(t) => {
            let chars = chars_of(t.as_str());
            let f = split_spaces(&chars);
            proof {
                lemma_split_nonempty(chars@);
            }
            if same_text(&f[0], "id") && f.len() >= 2 {
                HandshakeStep::Register(string_of(&f[1]))
            } else {
                HandshakeStep::Drop
            }
        },
        ReceiveOutcome::Ping => HandshakeStep::Wait,
        ReceiveOutcome::Pong => HandshakeStep::Wait,
        _ => HandshakeStep::Drop,
    }
}

} // verus!

verus! {

/// A redstone level that was set reads back as the same level from a
/// computer that echoes it; a level outside `0..=15` is refused before
/// anything is sent (see `set_redstone_request`).
pub proof fn lemma_redstone_round_trip(level: int)
    requires
        0 <= level <= 15,
    ensures
        truncated_number(decimal(level as nat)) == Some(level),
{
    let s = decimal(level as nat);
    crate::text::lemma_decimal_reads_back(level as nat);
    assert forall|j: int| 0 <= j < s.len() implies s[j] != '.' by {
        assert(crate::text::is_digit(s[j]));
    }
    assert(crate::text::is_digit(s[0]));
    crate::text::lemma_dot_position(s, s.len() as int);
    assert(s.take(s.len() as int) =~= s);
}

} // verus!
