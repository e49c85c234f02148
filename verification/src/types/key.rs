//! Keys and mouse buttons.

use vstd::prelude::*;

verus! {

/// A key of the keyboard or a button of the mouse.
#[derive(Debug, Clone, Copy, PartialEq, Eq, Structural, Hash)]
pub enum Key {
    A,
    B,
    C,
    D,
    E,
    F,
    G,
    H,
    I,
    J,
    K,
    L,
    M,
    N,
    O,
    P,
    Q,
    R,
    S,
    T,
    U,
    V,
    W,
    X,
    Y,
    Z,
    Num0,
    Num1,
    Num2,
    Num3,
    Num4,
    Num5,
    Num6,
    Num7,
    Num8,
    Num9,
    F1,
    F2,
    F3,
    F4,
    F5,
    F6,
    F7,
    F8,
    F9,
    F10,
    F11,
    F12,
    F13,
    F14,
    F15,
    F16,
    F17,
    F18,
    F19,
    F20,
    Space,
    Return,
    Tab,
    Escape,
    Backspace,
    Delete,
    Home,
    End,
    PageUp,
    PageDown,
    LeftArrow,
    RightArrow,
    UpArrow,
    DownArrow,
    Minus,
    Equal,
    LeftBracket,
    RightBracket,
    Backslash,
    Semicolon,
    Quote,
    Comma,
    Period,
    Slash,
    Grave,
    CapsLock,
    MouseLeft,
    MouseRight,
    MouseMiddle,
    MouseX1,
    MouseX2,
}

/// The number of keys and buttons.
pub const KEY_COUNT: usize = 87;

impl Key {
    /// The name of the key.
    pub open spec fn spelled(self) -> Seq<char> {
        match self {
            Key::A => "A"@,
            Key::B => "B"@,
            Key::C => "C"@,
            Key::D => "D"@,
            Key::E => "E"@,
            Key::F => "F"@,
            Key::G => "G"@,
            Key::H => "H"@,
            Key::I => "I"@,
            Key::J => "J"@,
            Key::K => "K"@,
            Key::L => "L"@,
            Key::M => "M"@,
            Key::N => "N"@,
            Key::O => "O"@,
            Key::P => "P"@,
            Key::Q => "Q"@,
            Key::R => "R"@,
            Key::S => "S"@,
            Key::T => "T"@,
            Key::U => "U"@,
            Key::V => "V"@,
            Key::W => "W"@,
            Key::X => "X"@,
            Key::Y => "Y"@,
            Key::Z => "Z"@,
            Key::Num0 => "Num0"@,
            Key::Num1 => "Num1"@,
            Key::Num2 => "Num2"@,
            Key::Num3 => "Num3"@,
            Key::Num4 => "Num4"@,
            Key::Num5 => "Num5"@,
            Key::Num6 => "Num6"@,
            Key::Num7 => "Num7"@,
            Key::Num8 => "Num8"@,
            Key::Num9 => "Num9"@,
            Key::F1 => "F1"@,
            Key::F2 => "F2"@,
            Key::F3 => "F3"@,
            Key::F4 => "F4"@,
            Key::F5 => "F5"@,
            Key::F6 => "F6"@,
            Key::F7 => "F7"@,
            Key::F8 => "F8"@,
            Key::F9 => "F9"@,
            Key::F10 => "F10"@,
            Key::F11 => "F11"@,
            Key::F12 => "F12"@,
            Key::F13 => "F13"@,
            Key::F14 => "F14"@,
            Key::F15 => "F15"@,
            Key::F16 => "F16"@,
            Key::F17 => "F17"@,
            Key::F18 => "F18"@,
            Key::F19 => "F19"@,
            Key::F20 => "F20"@,
            Key::Space => "Space"@,
            Key::Return => "Return"@,
            Key::Tab => "Tab"@,
            Key::Escape => "Escape"@,
            Key::Backspace => "Backspace"@,
            Key::Delete => "Delete"@,
            Key::Home => "Home"@,
            Key::End => "End"@,
            Key::PageUp => "PageUp"@,
            Key::PageDown => "PageDown"@,
            Key::LeftArrow => "LeftArrow"@,
            Key::RightArrow => "RightArrow"@,
            Key::UpArrow => "UpArrow"@,
            Key::DownArrow => "DownArrow"@,
            Key::Minus => "Minus"@,
            Key::Equal => "Equal"@,
            Key::LeftBracket => "LeftBracket"@,
            Key::RightBracket => "RightBracket"@,
            Key::Backslash => "Backslash"@,
            Key::Semicolon => "Semicolon"@,
            Key::Quote => "Quote"@,
            Key::Comma => "Comma"@,
            Key::Period => "Period"@,
            Key::Slash => "Slash"@,
            Key::Grave => "Grave"@,
            Key::CapsLock => "CapsLock"@,
            Key::MouseLeft => "MouseLeft"@,
            Key::MouseRight => "MouseRight"@,
            Key::MouseMiddle => "MouseMiddle"@,
            Key::MouseX1 => "MouseX1"@,
            Key::MouseX2 => "MouseX2"@,
        }
    }

    /// The name of the key.
    pub fn name(&self) -> (r: &'static str)
        ensures
            r@ == self.spelled(),
    {
        match self {
            Key::A => "A",
            Key::B => "B",
            Key::C => "C",
            Key::D => "D",
            Key::E => "E",
            Key::F => "F",
            Key::G => "G",
            Key::H => "H",
            Key::I => "I",
            Key::J => "J",
            Key::K => "K",
            Key::L => "L",
            Key::M => "M",
            Key::N => "N",
            Key::O => "O",
            Key::P => "P",
            Key::Q => "Q",
            Key::R => "R",
            Key::S => "S",
            Key::T => "T",
            Key::U => "U",
            Key::V => "V",
            Key::W => "W",
            Key::X => "X",
            Key::Y => "Y",
            Key::Z => "Z",
            Key::Num0 => "Num0",
            Key::Num1 => "Num1",
            Key::Num2 => "Num2",
            Key::Num3 => "Num3",
            Key::Num4 => "Num4",
            Key::Num5 => "Num5",
            Key::Num6 => "Num6",
            Key::Num7 => "Num7",
            Key::Num8 => "Num8",
            Key::Num9 => "Num9",
            Key::F1 => "F1",
            Key::F2 => "F2",
            Key::F3 => "F3",
            Key::F4 => "F4",
            Key::F5 => "F5",
            Key::F6 => "F6",
            Key::F7 => "F7",
            Key::F8 => "F8",
            Key::F9 => "F9",
            Key::F10 => "F10",
            Key::F11 => "F11",
            Key::F12 => "F12",
            Key::F13 => "F13",
            Key::F14 => "F14",
            Key::F15 => "F15",
            Key::F16 => "F16",
            Key::F17 => "F17",
            Key::F18 => "F18",
            Key::F19 => "F19",
            Key::F20 => "F20",
            Key::Space => "Space",
            Key::Return => "Return",
            Key::Tab => "Tab",
            Key::Escape => "Escape",
            Key::Backspace => "Backspace",
            Key::Delete => "Delete",
            Key::Home => "Home",
            Key::End => "End",
            Key::PageUp => "PageUp",
            Key::PageDown => "PageDown",
            Key::LeftArrow => "LeftArrow",
            Key::RightArrow => "RightArrow",
            Key::UpArrow => "UpArrow",
            Key::DownArrow => "DownArrow",
            Key::Minus => "Minus",
            Key::Equal => "Equal",
            Key::LeftBracket => "LeftBracket",
            Key::RightBracket => "RightBracket",
            Key::Backslash => "Backslash",
            Key::Semicolon => "Semicolon",
            Key::Quote => "Quote",
            Key::Comma => "Comma",
            Key::Period => "Period",
            Key::Slash => "Slash",
            Key::Grave => "Grave",
            Key::CapsLock => "CapsLock",
            Key::MouseLeft => "MouseLeft",
            Key::MouseRight => "MouseRight",
            Key::MouseMiddle => "MouseMiddle",
            Key::MouseX1 => "MouseX1",
            Key::MouseX2 => "MouseX2",
        }
    }

    /// The key at a place in the list of all keys.
    #[verifier::allow_in_spec]
    pub fn at(i: usize) -> Key
        returns
            (match i {
                0 => Key::A,
                1 => Key::B,
                2 => Key::C,
                3 => Key::D,
                4 => Key::E,
                5 => Key::F,
                6 => Key::G,
                7 => Key::H,
                8 => Key::I,
                9 => Key::J,
                10 => Key::K,
                11 => Key::L,
                12 => Key::M,
                13 => Key::N,
                14 => Key::O,
                15 => Key::P,
                16 => Key::Q,
                17 => Key::R,
                18 => Key::S,
                19 => Key::T,
                20 => Key::U,
                21 => Key::V,
                22 => Key::W,
                23 => Key::X,
                24 => Key::Y,
                25 => Key::Z,
                26 => Key::Num0,
                27 => Key::Num1,
                28 => Key::Num2,
                29 => Key::Num3,
                30 => Key::Num4,
                31 => Key::Num5,
                32 => Key::Num6,
                33 => Key::Num7,
                34 => Key::Num8,
                35 => Key::Num9,
                36 => Key::F1,
                37 => Key::F2,
                38 => Key::F3,
                39 => Key::F4,
                40 => Key::F5,
                41 => Key::F6,
                42 => Key::F7,
                43 => Key::F8,
                44 => Key::F9,
                45 => Key::F10,
                46 => Key::F11,
                47 => Key::F12,
                48 => Key::F13,
                49 => Key::F14,
                50 => Key::F15,
                51 => Key::F16,
                52 => Key::F17,
                53 => Key::F18,
                54 => Key::F19,
                55 => Key::F20,
                56 => Key::Space,
                57 => Key::Return,
                58 => Key::Tab,
                59 => Key::Escape,
                60 => Key::Backspace,
                61 => Key::Delete,
                62 => Key::Home,
                63 => Key::End,
                64 => Key::PageUp,
                65 => Key::PageDown,
                66 => Key::LeftArrow,
                67 => Key::RightArrow,
                68 => Key::UpArrow,
                69 => Key::DownArrow,
                70 => Key::Minus,
                71 => Key::Equal,
                72 => Key::LeftBracket,
                73 => Key::RightBracket,
                74 => Key::Backslash,
                75 => Key::Semicolon,
                76 => Key::Quote,
                77 => Key::Comma,
                78 => Key::Period,
                79 => Key::Slash,
                80 => Key::Grave,
                81 => Key::CapsLock,
                82 => Key::MouseLeft,
                83 => Key::MouseRight,
                84 => Key::MouseMiddle,
                85 => Key::MouseX1,
                _ => Key::MouseX2,
            }),
    {
        match i {
            0 => Key::A,
            1 => Key::B,
            2 => Key::C,
            3 => Key::D,
            4 => Key::E,
            5 => Key::F,
            6 => Key::G,
            7 => Key::H,
            8 => Key::I,
            9 => Key::J,
            10 => Key::K,
            11 => Key::L,
            12 => Key::M,
            13 => Key::N,
            14 => Key::O,
            15 => Key::P,
            16 => Key::Q,
            17 => Key::R,
            18 => Key::S,
            19 => Key::T,
            20 => Key::U,
            21 => Key::V,
            22 => Key::W,
            23 => Key::X,
            24 => Key::Y,
            25 => Key::Z,
            26 => Key::Num0,
            27 => Key::Num1,
            28 => Key::Num2,
            29 => Key::Num3,
            30 => Key::Num4,
            31 => Key::Num5,
            32 => Key::Num6,
            33 => Key::Num7,
            34 => Key::Num8,
            35 => Key::Num9,
            36 => Key::F1,
            37 => Key::F2,
            38 => Key::F3,
            39 => Key::F4,
            40 => Key::F5,
            41 => Key::F6,
            42 => Key::F7,
            43 => Key::F8,
            44 => Key::F9,
            45 => Key::F10,
            46 => Key::F11,
            47 => Key::F12,
            48 => Key::F13,
            49 => Key::F14,
            50 => Key::F15,
            51 => Key::F16,
            52 => Key::F17,
            53 => Key::F18,
            54 => Key::F19,
            55 => Key::F20,
            56 => Key::Space,
            57 => Key::Return,
            58 => Key::Tab,
            59 => Key::Escape,
            60 => Key::Backspace,
            61 => Key::Delete,
            62 => Key::Home,
            63 => Key::End,
            64 => Key::PageUp,
            65 => Key::PageDown,
            66 => Key::LeftArrow,
            67 => Key::RightArrow,
            68 => Key::UpArrow,
            69 => Key::DownArrow,
            70 => Key::Minus,
            71 => Key::Equal,
            72 => Key::LeftBracket,
            73 => Key::RightBracket,
            74 => Key::Backslash,
            75 => Key::Semicolon,
            76 => Key::Quote,
            77 => Key::Comma,
            78 => Key::Period,
            79 => Key::Slash,
            80 => Key::Grave,
            81 => Key::CapsLock,
            82 => Key::MouseLeft,
            83 => Key::MouseRight,
            84 => Key::MouseMiddle,
            85 => Key::MouseX1,
            _ => Key::MouseX2,
        }
    }
}

} // verus!
