//! Hotkeys as text.

use vstd::prelude::*;

use crate::error::Error;

use super::hotkey::Hotkey;
use super::key::{Key, KEY_COUNT};
use super::modifiers::Modifiers;

verus! {

/// The code of a character, with a capital Latin letter taken as the small one.
pub open spec fn folded(c: char) -> int {
    if 'A' as int <= c as int && c as int <= 'Z' as int {
        c as int + 32
    } else {
        c as int
    }
}

/// Whether two texts are the same but for the case of Latin letters.
pub open spec fn same_but_case(a: Seq<char>, b: Seq<char>) -> bool {
    &&& a.len() == b.len()
    &&& forall|i: int| 0 <= i < a.len() ==> folded(#[trigger] a[i]) == folded(b[i])
}

fn fold(c: char) -> (r: u32)
    ensures
        r == folded(c),
{
    let code: u32 = c as u32;
    if 0x41 <= code && code <= 0x5a {
        code + 32
    } else {
        code
    }
}

/// Checks whether characters spell a name, in whatever case.
fn spells(piece: &Vec<char>, name: &str) -> (r: bool)
    ensures
        r <==> same_but_case(piece@, name@),
{
    if piece.len() != name.unicode_len() {
        return false;
    }
    let mut i: usize = 0;
    while i < piece.len()
        invariant
            i <= piece@.len(),
            piece@.len() == name@.len(),
            forall|j: int| 0 <= j < i ==> folded(#[trigger] piece@[j]) == folded(name@[j]),
        decreases piece@.len() - i,
    {
        if fold(piece[i]) != fold(name.get_char(i)) {
            return false;
        }
        i = i + 1;
    }
    true
}

impl Key {
    /// The first key in the list, from a place on, that a piece of text names.
    pub open spec fn named_from(piece: Seq<char>, i: usize) -> Option<Key>
        decreases KEY_COUNT - i,
    {
        if i >= KEY_COUNT {
            None
        } else if same_but_case(piece, Key::at(i).spelled()) {
            Some(Key::at(i))
        } else {
            Key::named_from(piece, (i + 1) as usize)
        }
    }

    /// The key that a piece of text names.
    pub fn from_name(piece: &Vec<char>) -> (r: Option<Key>)
        ensures
            r == Key::named_from(piece@, 0),
    {
        let mut i: usize = 0;
        while i < KEY_COUNT
            invariant
                i <= KEY_COUNT,
                Key::named_from(piece@, 0) == Key::named_from(piece@, i),
            decreases KEY_COUNT - i,
        {
            let key = Key::at(i);
            if spells(piece, key.name()) {
                return Some(key);
            }
            i = i + 1;
        }
        None
    }
}

impl Modifiers {
    /// The modifiers that a piece of text names.
    pub open spec fn named(piece: Seq<char>) -> Option<Modifiers> {
        if same_but_case(piece, "cmd"@) {
            Some(Modifiers::cmd())
        } else if same_but_case(piece, "cmd_left"@) {
            Some(Modifiers::cmd_left())
        } else if same_but_case(piece, "cmd_right"@) {
            Some(Modifiers::cmd_right())
        } else if same_but_case(piece, "ctrl"@) {
            Some(Modifiers::ctrl())
        } else if same_but_case(piece, "ctrl_left"@) {
            Some(Modifiers::ctrl_left())
        } else if same_but_case(piece, "ctrl_right"@) {
            Some(Modifiers::ctrl_right())
        } else if same_but_case(piece, "opt"@) {
            Some(Modifiers::opt())
        } else if same_but_case(piece, "opt_left"@) {
            Some(Modifiers::opt_left())
        } else if same_but_case(piece, "opt_right"@) {
            Some(Modifiers::opt_right())
        } else if same_but_case(piece, "shift"@) {
            Some(Modifiers::shift())
        } else if same_but_case(piece, "shift_left"@) {
            Some(Modifiers::shift_left())
        } else if same_but_case(piece, "shift_right"@) {
            Some(Modifiers::shift_right())
        } else if same_but_case(piece, "fn"@) {
            Some(Modifiers::function())
        } else {
            None
        }
    }

    /// The modifiers that a piece of text names.
    pub fn from_name(piece: &Vec<char>) -> (r: Option<Modifiers>)
        ensures
            r == Modifiers::named(piece@),
    {
        if spells(piece, "cmd") {
            Some(Modifiers::cmd())
        } else if spells(piece, "cmd_left") {
            Some(Modifiers::cmd_left())
        } else if spells(piece, "cmd_right") {
            Some(Modifiers::cmd_right())
        } else if spells(piece, "ctrl") {
            Some(Modifiers::ctrl())
        } else if spells(piece, "ctrl_left") {
            Some(Modifiers::ctrl_left())
        } else if spells(piece, "ctrl_right") {
            Some(Modifiers::ctrl_right())
        } else if spells(piece, "opt") {
            Some(Modifiers::opt())
        } else if spells(piece, "opt_left") {
            Some(Modifiers::opt_left())
        } else if spells(piece, "opt_right") {
            Some(Modifiers::opt_right())
        } else if spells(piece, "shift") {
            Some(Modifiers::shift())
        } else if spells(piece, "shift_left") {
            Some(Modifiers::shift_left())
        } else if spells(piece, "shift_right") {
            Some(Modifiers::shift_right())
        } else if spells(piece, "fn") {
            Some(Modifiers::function())
        } else {
            None
        }
    }
}

/// A hotkey's text, read up to some point.
pub struct Reading {
    /// The modifiers named so far.
    pub modifiers: Modifiers,
    /// The key named so far.
    pub key: Option<Key>,
    /// What stands behind the last plus sign.
    pub piece: Seq<char>,
    /// Whether every piece has been a name, with at most one key among them.
    pub ok: bool,
}

impl Reading {
    /// The reading of a text.
    pub open spec fn of(spelling: Seq<char>) -> Reading
        decreases spelling.len(),
    {
        if spelling.len() == 0 {
            Reading { modifiers: Modifiers::empty(), key: None, piece: Seq::empty(), ok: true }
        } else {
            let read = Reading::of(spelling.drop_last());
            if spelling.last() == '+' {
                Reading { piece: Seq::empty(), ..read.closed() }
            } else {
                Reading { piece: read.piece.push(spelling.last()), ..read }
            }
        }
    }

    /// The reading once its last piece is complete.
    pub open spec fn closed(self) -> Reading {
        match (Modifiers::named(self.piece), Key::named_from(self.piece, 0)) {
            (Some(more), _) => Reading {
                modifiers: Modifiers { bits: self.modifiers.bits | more.bits },
                ..self
            },
            (None, Some(key)) => Reading {
                key: Some(key),
                ok: self.ok && self.key is None,
                ..self
            },
            (None, None) => Reading { ok: false, ..self },
        }
    }
}

impl Hotkey {
    /// What is owed to a request to read a text: the hotkey that it spells, or else
    /// the text itself as the reason for the refusal.
    pub open spec fn reads(spelling: Seq<char>, r: Result<Hotkey, Error>) -> bool {
        let read = Reading::of(spelling).closed();
        if read.ok {
            r matches Ok(hotkey) && hotkey == (Hotkey {
                modifiers: read.modifiers,
                key: read.key,
            })
        } else {
            r matches Err(Error::InvalidHotkey(what)) && what@ == spelling
        }
    }

    /// The hotkey that a text spells: names of modifiers and at most one key,
    /// with a plus sign between them, in whatever case.
    pub fn parse(spelling: &str) -> (r: Result<Hotkey, Error>)
        ensures
            Hotkey::reads(spelling@, r),
    {
        let mut modifiers = Modifiers::empty();
        let mut key: Option<Key> = None;
        let mut piece: Vec<char> = Vec::new();
        let len = spelling.unicode_len();
        let mut i: usize = 0;
        assert(spelling@.take(0) =~= Seq::<char>::empty());
        while i < len
            invariant
                i <= len,
                len == spelling@.len(),
                Reading::of(spelling@.take(i as int)) == (Reading {
                    modifiers,
                    key,
                    piece: piece@,
                    ok: true,
                }),
            decreases len - i,
        {
            let c = spelling.get_char(i);
            proof {
                let longer = spelling@.take(i + 1);
                assert(longer.drop_last() =~= spelling@.take(i as int));
            }
            if c == '+' {
                match add_piece(modifiers, key, &piece) {
                    Some((more, now_key)) => {
                        modifiers = more;
                        key = now_key;
                    },
                    None => {
                        proof {
                            lemma_stays_refused(spelling@, i + 1);
                        }
                        return Err(Error::InvalidHotkey(spelling.to_string()));
                    },
                }
                piece = Vec::new();
            } else {
                piece.push(c);
            }
            i = i + 1;
        }
        assert(spelling@.take(len as int) =~= spelling@);
        match add_piece(modifiers, key, &piece) {
            Some((modifiers, key)) => Ok(Hotkey { modifiers, key }),
            None => Err(Error::InvalidHotkey(spelling.to_string())),
        }
    }
}

/// Takes a complete piece into what has been read.
fn add_piece(modifiers: Modifiers, key: Option<Key>, piece: &Vec<char>) -> (r: Option<
    (Modifiers, Option<Key>),
>)
    ensures
        ({
            let read = (Reading { modifiers, key, piece: piece@, ok: true }).closed();
            match r {
                Some((modifiers, key)) => read.ok && read.modifiers == modifiers && read.key == key,
                None => !read.ok,
            }
        }),
{
    if let Some(more) = Modifiers::from_name(piece) {
        return Some((modifiers | more, key));
    }
    if let Some(named) = Key::from_name(piece) {
        if key.is_none() {
            return Some((modifiers, Some(named)));
        }
    }
    None
}

/// A text that has been refused at some point stays refused.
proof fn lemma_stays_refused(spelling: Seq<char>, from: int)
    requires
        0 <= from <= spelling.len(),
        !Reading::of(spelling.take(from)).ok,
    ensures
        !Reading::of(spelling).ok,
        !Reading::of(spelling).closed().ok,
    decreases spelling.len() - from,
{
    if from == spelling.len() {
        assert(spelling.take(from) =~= spelling);
    } else {
        assert(spelling.take(from + 1).drop_last() =~= spelling.take(from));
        lemma_stays_refused(spelling, from + 1);
    }
}

/// Spellings are read by [`Hotkey::parse`].
impl core::str::FromStr for Hotkey {
    type Err = Error;

    fn from_str(spelling: &str) -> (r: Result<Hotkey, Error>)
        ensures
            Hotkey::reads(spelling@, r),
    {
        Hotkey::parse(spelling)
    }
}

} // verus!
