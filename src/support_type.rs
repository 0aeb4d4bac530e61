use crate::error::Errors;
use crate::text::{
    bool_value, chars_of, lemma_split_nonempty, parse_bool, parse_i8, parse_unsigned, same_text,
    signed_value, split_fields, split_spaces, unsigned_value,
};
use vstd::prelude::*;
use vstd::string::*;

verus! {

/// One of the six sides of a computer.
#[derive(Debug, Clone, Copy, PartialEq, Eq, Structural, PartialOrd, Ord, Hash)]
pub enum Side {
    Top,
    Bottom,
    Left,
    Right,
    Front,
    Back,
}

/// The name of a side on the wire.
pub open spec fn side_name(side: Side) -> Seq<char> {
    match side {
        Side::Top => "top"@,
        Side::Bottom => "bottom"@,
        Side::Left => "left"@,
        Side::Right => "right"@,
        Side::Front => "front"@,
        Side::Back => "back"@,
    }
}

/// The side that a wire name stands for.
pub open spec fn side_of(s: Seq<char>) -> Option<Side> {
    if s == "top"@ {
        Some(Side::Top)
    } else if s == "bottom"@ {
        Some(Side::Bottom)
    } else if s == "left"@ {
        Some(Side::Left)
    } else if s == "right"@ {
        Some(Side::Right)
    } else if s == "front"@ {
        Some(Side::Front)
    } else if s == "back"@ {
        Some(Side::Back)
    } else {
        None
    }
}

impl Side {
    pub fn name(&self) -> (r: &'static str)
        ensures
            r@ == side_name(*self),
    {
        match self {
            Side::Top => "top",
            Side::Bottom => "bottom",
            Side::Left => "left",
            Side::Right => "right",
            Side::Front => "front",
            Side::Back => "back",
        }
    }

    /// The side named by a run of characters.
    pub fn from_chars(name: &Vec<char>) -> (r: Option<Side>)
        ensures
            r == side_of(name@),
    {
        if same_text(name, "top") {
            Some(Side::Top)
        } else if same_text(name, "bottom") {
            Some(Side::Bottom)
        } else if same_text(name, "left") {
            Some(Side::Left)
        } else if same_text(name, "right") {
            Some(Side::Right)
        } else if same_text(name, "front") {
            Some(Side::Front)
        } else if same_text(name, "back") {
            Some(Side::Back)
        } else {
            None
        }
    }

    /// The side with this wire name; any other name is an invalid side.
    pub fn from_name(name: &str) -> (r: Result<Side, Errors>)
        ensures
            side_of(name@) matches Some(s) ==> r == Ok::<Side, Errors>(s),
            side_of(name@) is None ==> (r matches Err(Errors::InvalidSideName(n)) && n@ == name@),
    {
        let chars = chars_of(name);
        match Side::from_chars(&chars) {
            Some(s) => Ok(s),
            None => Err(Errors::InvalidSideName(name.to_owned())),
        }
    }
}

pub open spec fn u16_of(s: Seq<char>) -> Option<u16> {
    match unsigned_value(s) {
        Some(v) => if v <= u16::MAX {
            Some(v as u16)
        } else {
            None
        },
        None => None,
    }
}

pub open spec fn u8_of(s: Seq<char>) -> Option<u8> {
    match unsigned_value(s) {
        Some(v) => if v <= u8::MAX {
            Some(v as u8)
        } else {
            None
        },
        None => None,
    }
}

pub open spec fn i8_of(s: Seq<char>) -> Option<i8> {
    match signed_value(s) {
        Some(v) => if -128 <= v <= 127 {
            Some(v as i8)
        } else {
            None
        },
        None => None,
    }
}

/// Something that happened at a computer.
#[derive(Debug, Clone, PartialEq, Eq, PartialOrd, Ord, Hash)]
pub enum Event {
    Key { keycode: u16, hold: bool },
    KeyUp { keycode: u16 },
    /// An event of another kind, or a malformed one, with its whole text.
    Other(String),
    MouseClick { key: u8, x: u16, y: u16 },
    MouseUp { key: u8, x: u16, y: u16 },
    MouseDrag { key: u8, x: u16, y: u16 },
    MouseScroll { direction: i8, x: u16, y: u16 },
    MonitorTouch { side: Side, x: u16, y: u16 },
}

/// The fields `button x y` that the three mouse button events share.
pub open spec fn button_fields(f: Seq<Seq<char>>) -> Option<(u8, u16, u16)> {
    if f.len() >= 4 && u8_of(f[1]) is Some && u16_of(f[2]) is Some && u16_of(f[3]) is Some {
        Some((u8_of(f[1])->0, u16_of(f[2])->0, u16_of(f[3])->0))
    } else {
        None
    }
}

/// The event that a well-formed event line encodes; `None` for a line of an
/// unknown kind or with a malformed field.
pub open spec fn structured_event(s: Seq<char>) -> Option<Event> {
    let f = split_fields(s);
    let kind = f[0];
    if kind == "key"@ {
        if f.len() >= 3 && u16_of(f[1]) is Some && bool_value(f[2]) is Some {
            Some(Event::Key { keycode: u16_of(f[1])->0, hold: bool_value(f[2])->0 })
        } else {
            None
        }
    } else if kind == "key_up"@ {
        if f.len() >= 2 && u16_of(f[1]) is Some {
            Some(Event::KeyUp { keycode: u16_of(f[1])->0 })
        } else {
            None
        }
    } else if kind == "mouse_click"@ {
        match button_fields(f) {
            Some((k, x, y)) => Some(Event::MouseClick { key: k, x, y }),
            None => None,
        }
    } else if kind == "mouse_up"@ {
        match button_fields(f) {
            Some((k, x, y)) => Some(Event::MouseUp { key: k, x, y }),
            None => None,
        }
    } else if kind == "mouse_drag"@ {
        match button_fields(f) {
            Some((k, x, y)) => Some(Event::MouseDrag { key: k, x, y }),
            None => None,
        }
    } else if kind == "mouse_scroll"@ {
        if f.len() >= 4 && i8_of(f[1]) is Some && u16_of(f[2]) is Some && u16_of(f[3]) is Some {
            Some(
                Event::MouseScroll {
                    direction: i8_of(f[1])->0,
                    x: u16_of(f[2])->0,
                    y: u16_of(f[3])->0,
                },
            )
        } else {
            None
        }
    } else if kind == "monitor_touch"@ {
        if f.len() >= 4 && side_of(f[1]) is Some && u16_of(f[2]) is Some && u16_of(f[3]) is Some {
            Some(
                Event::MonitorTouch {
                    side: side_of(f[1])->0,
                    x: u16_of(f[2])->0,
                    y: u16_of(f[3])->0,
                },
            )
        } else {
            None
        }
    } else {
        None
    }
}

fn read_u16(s: &Vec<char>) -> (r: Option<u16>)
    ensures
        r == u16_of(s@),
{
    match parse_unsigned(s, 65535) {
        Some(v) => Some(v as u16),
        None => None,
    }
}

fn read_u8(s: &Vec<char>) -> (r: Option<u8>)
    ensures
        r == u8_of(s@),
{
    match parse_unsigned(s, 255) {
        Some(v) => Some(v as u8),
        None => None,
    }
}

/// Reads the `button x y` fields of a mouse button event.
fn read_button_fields(f: &Vec<Vec<char>>) -> (r: Option<(u8, u16, u16)>)
    ensures
        r == button_fields(f@.map_values(|v: Vec<char>| v@)),
{
    let ghost g = f@.map_values(|v: Vec<char>| v@);
    if f.len() < 4 {
        return None;
    }
    assert(g[1] == f@[1]@ && g[2] == f@[2]@ && g[3] == f@[3]@);
    match (read_u8(&f[1]), read_u16(&f[2]), read_u16(&f[3])) {
        (Some(k), Some(x), Some(y)) => Some((k, x, y)),
        _ => None,
    }
}

impl Event {
    /// Decodes an event line. The first field names the kind; a line of an
    /// unknown kind, or with a malformed field, becomes `Event::Other`
    /// holding the whole line.
    pub fn decode(text: &str) -> (r: Event)
        ensures
            structured_event(text@) matches Some(e) ==> r == e,
            structured_event(text@) is None ==> (r matches Event::Other(t) && t@ == text@),
    {
        let chars = chars_of(text);
        let f = split_spaces(&chars);
        let ghost g = f@.map_values(|v: Vec<char>| v@);
        proof {
            lemma_split_nonempty(chars@);
            assert(g =~= split_fields(text@));
        }
        let kind = &f[0];
        if same_text(kind, "key") {
            if f.len() >= 3 {
                match (read_u16(&f[1]), parse_bool(&f[2])) {
                    (Some(keycode), Some(hold)) => {
                        return Event::Key { keycode, hold };
                    },
                    _ => {},
                }
            }
        } else if same_text(kind, "key_up") {
            if f.len() >= 2 {
                match read_u16(&f[1]) {
                    Some(keycode) => {
                        return Event::KeyUp { keycode };
                    },
                    None => {},
                }
            }
        } else if same_text(kind, "mouse_click") {
            match read_button_fields(&f) {
                Some((key, x, y)) => {
                    return Event::MouseClick { key, x, y };
                },
                None => {},
            }
        } else if same_text(kind, "mouse_up") {
            match read_button_fields(&f) {
                Some((key, x, y)) => {
                    return Event::MouseUp { key, x, y };
                },
                None => {},
            }
        } else if same_text(kind, "mouse_drag") {
            match read_button_fields(&f) {
                Some((key, x, y)) => {
                    return Event::MouseDrag { key, x, y };
                },
                None => {},
            }
        } else if same_text(kind, "mouse_scroll") {
            if f.len() >= 4 {
                match (parse_i8(&f[1]), read_u16(&f[2]), read_u16(&f[3])) {
                    (Some(direction), Some(x), Some(y)) => {
                        return Event::MouseScroll { direction, x, y };
                    },
                    _ => {},
                }
            }
        } else if same_text(kind, "monitor_touch") {
            if f.len() >= 4 {
                match (Side::from_chars(&f[1]), read_u16(&f[2]), read_u16(&f[3])) {
                    (Some(side), Some(x), Some(y)) => {
                        return Event::MonitorTouch { side, x, y };
                    },
                    _ => {},
                }
            }
        }
        Event::Other(text.to_owned())
    }
}

/// The kind of a peripheral attached to a side of a computer.
#[derive(Debug, Clone, Copy, PartialEq, Eq, Structural, PartialOrd, Ord, Hash)]
pub enum PeripheralType {
    Monitor,
    Modem,
    Speaker,
    Drive,
    Printer,
    Inventory,
}

pub open spec fn peripheral_name(p: PeripheralType) -> Seq<char> {
    match p {
        PeripheralType::Monitor => "Monitor"@,
        PeripheralType::Modem => "modem"@,
        PeripheralType::Speaker => "speaker"@,
        PeripheralType::Drive => "drive"@,
        PeripheralType::Printer => "printer"@,
        PeripheralType::Inventory => "inventory"@,
    }
}

/// The peripheral type that a computer reports under this name.
pub open spec fn peripheral_of(s: Seq<char>) -> Option<PeripheralType> {
    if s == "monitor"@ {
        Some(PeripheralType::Monitor)
    } else if s == "modem"@ {
        Some(PeripheralType::Modem)
    } else if s == "speaker"@ {
        Some(PeripheralType::Speaker)
    } else if s == "drive"@ {
        Some(PeripheralType::Drive)
    } else if s == "printer"@ {
        Some(PeripheralType::Printer)
    } else if s == "inventory"@ {
        Some(PeripheralType::Inventory)
    } else {
        None
    }
}

impl PeripheralType {
    pub fn name(&self) -> (r: &'static str)
        ensures
            r@ == peripheral_name(*self),
    {
        match self {
            PeripheralType::Monitor => "Monitor",
            PeripheralType::Modem => "modem",
            PeripheralType::Speaker => "speaker",
            PeripheralType::Drive => "drive",
            PeripheralType::Printer => "printer",
            PeripheralType::Inventory => "inventory",
        }
    }

    /// The peripheral type with this name; any other name is an invalid
    /// peripheral type.
    pub fn from_name(name: &str) -> (r: Result<PeripheralType, Errors>)
        ensures
            peripheral_of(name@) matches Some(p) ==> r == Ok::<PeripheralType, Errors>(p),
            peripheral_of(name@) is None ==> (r matches Err(Errors::InvalidPeripheralType(n))
                && n@ == name@),
    {
        let v = chars_of(name);
        if same_text(&v, "monitor") {
            Ok(PeripheralType::Monitor)
        } else if same_text(&v, "modem") {
            Ok(PeripheralType::Modem)
        } else if same_text(&v, "speaker") {
            Ok(PeripheralType::Speaker)
        } else if same_text(&v, "drive") {
            Ok(PeripheralType::Drive)
        } else if same_text(&v, "printer") {
            Ok(PeripheralType::Printer)
        } else if same_text(&v, "inventory") {
            Ok(PeripheralType::Inventory)
        } else {
            Err(Errors::InvalidPeripheralType(name.to_owned()))
        }
    }
}

/// The sixteen colors of a computer, each with a bit of its own.
#[derive(Debug, Clone, Copy, PartialEq, Eq, Structural, PartialOrd, Ord, Hash)]
pub enum ColorId {
    White,
    Orange,
    Magenta,
    LightBlue,
    Yellow,
    Lime,
    Pink,
    Gray,
    LightGray,
    Cyan,
    Purple,
    Blue,
    Brown,
    Green,
    Red,
    Black,
}

/// The bit position of a color, from 0 for white to 15 for black.
pub open spec fn color_index(c: ColorId) -> nat {
    match c {
        ColorId::White => 0,
        ColorId::Orange => 1,
        ColorId::Magenta => 2,
        ColorId::LightBlue => 3,
        ColorId::Yellow => 4,
        ColorId::Lime => 5,
        ColorId::Pink => 6,
        ColorId::Gray => 7,
        ColorId::LightGray => 8,
        ColorId::Cyan => 9,
        ColorId::Purple => 10,
        ColorId::Blue => 11,
        ColorId::Brown => 12,
        ColorId::Green => 13,
        ColorId::Red => 14,
        ColorId::Black => 15,
    }
}

/// The wire value of a color: one bit at its position.
pub open spec fn color_mask(c: ColorId) -> u16 {
    1u16 << (color_index(c) as u16)
}

impl ColorId {
    pub fn index(&self) -> (r: u16)
        ensures
            r == color_index(*self),
    {
        match self {
            ColorId::White => 0,
            ColorId::Orange => 1,
            ColorId::Magenta => 2,
            ColorId::LightBlue => 3,
            ColorId::Yellow => 4,
            ColorId::Lime => 5,
            ColorId::Pink => 6,
            ColorId::Gray => 7,
            ColorId::LightGray => 8,
            ColorId::Cyan => 9,
            ColorId::Purple => 10,
            ColorId::Blue => 11,
            ColorId::Brown => 12,
            ColorId::Green => 13,
            ColorId::Red => 14,
            ColorId::Black => 15,
        }
    }

    /// The wire value: `1 << index`.
    pub fn to_number(&self) -> (r: u16)
        ensures
            r == color_mask(*self),
    {
        1u16 << self.index()
    }

    /// The color whose index is `num` modulo 16.
    pub fn from_number_overflow(num: u32) -> (r: ColorId)
        ensures
            color_index(r) == num % 16,
    {
        ColorId::from_number_or_panic((num % 16) as u8)
    }

    fn from_number_or_panic(num: u8) -> (r: ColorId)
        requires
            num < 16,
        ensures
            color_index(r) == num,
    {
        match num {
            0 => ColorId::White,
            1 => ColorId::Orange,
            2 => ColorId::Magenta,
            3 => ColorId::LightBlue,
            4 => ColorId::Yellow,
            5 => ColorId::Lime,
            6 => ColorId::Pink,
            7 => ColorId::Gray,
            8 => ColorId::LightGray,
            9 => ColorId::Cyan,
            10 => ColorId::Purple,
            11 => ColorId::Blue,
            12 => ColorId::Brown,
            13 => ColorId::Green,
            14 => ColorId::Red,
            _ => ColorId::Black,
        }
    }
}

/// A direction in which text is written on a monitor.
#[derive(Debug, Clone, Copy, PartialEq, Eq, Structural, PartialOrd, Ord, Hash)]
pub enum Direction {
    PosX,
    PosY,
    NegX,
    NegY,
}

/// The step of one character in a direction.
pub open spec fn direction_step(d: Direction) -> (int, int) {
    match d {
        Direction::PosX => (1, 0),
        Direction::PosY => (0, 1),
        Direction::NegX => (-1, 0),
        Direction::NegY => (0, -1),
    }
}

impl Direction {
    pub fn to_dxdy(&self) -> (r: (isize, isize))
        ensures
            r.0 == direction_step(*self).0,
            r.1 == direction_step(*self).1,
    {
        match self {
            Direction::PosX => (1, 0),
            Direction::PosY => (0, 1),
            Direction::NegX => (-1, 0),
            Direction::NegY => (0, -1),
        }
    }
}

} // verus!
