//! The line of text that a user edits to name a key or a node: characters
//! and a cursor between them.

use vstd::prelude::*;

verus! {

/// A line of text with a cursor. The cursor stands before the character at
/// its index, or behind the last one.
pub struct InputLine {
    chars: Vec<char>,
    cursor: usize,
}

impl View for InputLine {
    type V = Seq<char>;

    /// The characters of the line.
    closed spec fn view(&self) -> Seq<char> {
        self.chars@
    }
}

/// A decimal digit.
pub open spec fn is_digit(c: char) -> bool {
    '0' <= c <= '9'
}

/// The number that a run of decimal digits writes; 0 for the empty run.
pub open spec fn decimal(digits: Seq<char>) -> nat
    decreases digits.len(),
{
    if digits.len() == 0 {
        0
    } else {
        (decimal(digits.drop_last()) * 10 + (digits.last() as nat - '0' as nat)) as nat
    }
}

/// The text without a leading `+`.
pub open spec fn unsigned_part(text: Seq<char>) -> Seq<char> {
    if text.len() > 0 && text[0] == '+' {
        text.subrange(1, text.len() as int)
    } else {
        text
    }
}

/// The number that `text` reads as: an optional `+`, then one or more decimal
/// digits and nothing else, writing a number that fits 16 bits.
pub open spec fn reads_as(text: Seq<char>) -> Option<u16> {
    let digits = unsigned_part(text);
    if digits.len() > 0 && (forall|i: int| 0 <= i < digits.len() ==> is_digit(#[trigger] digits[i]))
        && decimal(digits) <= u16::MAX {
        Some(decimal(digits) as u16)
    } else {
        None
    }
}

/// A run of digits writes no smaller a number than any of its prefixes.
pub proof fn lemma_decimal_grows(digits: Seq<char>, upto: int)
    requires
        0 <= upto <= digits.len(),
        forall|i: int| 0 <= i < digits.len() ==> is_digit(#[trigger] digits[i]),
    ensures
        decimal(digits.subrange(0, upto)) <= decimal(digits),
    decreases digits.len() - upto,
{
    if upto == digits.len() {
        assert(digits.subrange(0, upto) =~= digits);
    } else {
        lemma_decimal_grows(digits, upto + 1);
        let longer = digits.subrange(0, upto + 1);
        assert(longer.drop_last() =~= digits.subrange(0, upto));
        assert(is_digit(digits[upto]));
        assert(longer.last() == digits[upto]);
    }
}

impl InputLine {
    /// The cursor is never behind the end of the text.
    #[verifier::type_invariant]
    spec fn cursor_inside(&self) -> bool {
        self.cursor <= self.chars.len()
    }

    /// The index of the cursor, counted in characters.
    pub closed spec fn cursor(&self) -> nat {
        self.cursor as nat
    }

    /// An empty line.
    pub fn new() -> (line: Self)
        ensures
            line@ == Seq::<char>::empty(),
            line.cursor() == 0,
    {
        InputLine { chars: Vec::new(), cursor: 0 }
    }

    /// The characters of the line.
    pub fn chars(&self) -> (chars: &Vec<char>)
        ensures
            chars@ == self@,
    {
        &self.chars
    }

    /// The index of the cursor, counted in characters.
    pub fn character_index(&self) -> (index: usize)
        ensures
            index == self.cursor(),
            index <= self@.len(),
    {
        proof {
            use_type_invariant(self);
        }
        self.cursor
    }

    /// `new_cursor_pos`, or the length of the text where that is smaller.
    pub fn clamp_cursor(&self, new_cursor_pos: usize) -> (clamped: usize)
        ensures
            clamped == if new_cursor_pos <= self@.len() {
                new_cursor_pos as int
            } else {
                self@.len() as int
            },
    {
        let len = self.chars.len();
        if new_cursor_pos <= len {
            new_cursor_pos
        } else {
            len
        }
    }

    /// Moves the cursor one character to the left, unless it stands at the
    /// start.
    pub fn move_cursor_left(&mut self)
        ensures
            final(self)@ == old(self)@,
            final(self).cursor() == if old(self).cursor() == 0 {
                0
            } else {
                old(self).cursor() - 1
            },
    {
        proof {
            use_type_invariant(&*self);
        }
        if self.cursor > 0 {
            self.cursor = self.cursor - 1;
        }
    }

    /// Moves the cursor one character to the right, unless it stands at the
    /// end.
    pub fn move_cursor_right(&mut self)
        ensures
            final(self)@ == old(self)@,
            final(self).cursor() == if old(self).cursor() == old(self)@.len() {
                old(self).cursor()
            } else {
                old(self).cursor() + 1
            },
    {
        proof {
            use_type_invariant(&*self);
        }
        if self.cursor < self.chars.len() {
            self.cursor = self.cursor + 1;
        }
    }

    /// Puts the cursor at the start.
    pub fn reset_cursor(&mut self)
        ensures
            final(self)@ == old(self)@,
            final(self).cursor() == 0,
    {
        self.cursor = 0;
    }

    /// Inserts `new_char` at the cursor and moves the cursor behind it.
    pub fn enter_char(&mut self, new_char: char)
        ensures
            final(self)@ == old(self)@.insert(old(self).cursor() as int, new_char),
            final(self).cursor() == old(self).cursor() + 1,
    {
        proof {
            use_type_invariant(&*self);
        }
        let at = self.cursor;
        self.cursor = 0;
        let mut chars = Vec::new();
        std::mem::swap(&mut chars, &mut self.chars);
        chars.insert(at, new_char);
        self.chars = chars;
        self.cursor = at + 1;
    }

    /// Deletes the character before the cursor and moves the cursor one to
    /// the left. Does nothing where the cursor stands at the start.
    pub fn delete_char(&mut self)
        ensures
            old(self).cursor() == 0 ==> final(self)@ == old(self)@ && final(self).cursor() == 0,
            old(self).cursor() > 0 ==> final(self)@ == old(self)@.remove(old(self).cursor() - 1)
                && final(self).cursor() == old(self).cursor() - 1,
    {
        proof {
            use_type_invariant(&*self);
        }
        if self.cursor != 0 {
            let at = self.cursor - 1;
            self.cursor = 0;
            let mut chars = Vec::new();
            std::mem::swap(&mut chars, &mut self.chars);
            chars.remove(at);
            self.chars = chars;
            self.cursor = at;
        }
    }

    /// Empties the line and puts the cursor at the start.
    pub fn clear(&mut self)
        ensures
            final(self)@ == Seq::<char>::empty(),
            final(self).cursor() == 0,
    {
        self.cursor = 0;
        self.chars = Vec::new();
    }

    /// The number that the line reads as, if it reads as one.
    pub fn number(&self) -> (number: Option<u16>)
        ensures
            number == reads_as(self@),
    {
        let len = self.chars.len();
        let start: usize = if len > 0 && self.chars[0] == '+' {
            1
        } else {
            0
        };
        let ghost digits = unsigned_part(self@);
        proof {
            assert(digits =~= self@.subrange(start as int, len as int));
        }
        if start == len {
            return None;
        }
        let mut value: u32 = 0;
        let mut i: usize = start;
        while i < len
            invariant
                start <= i <= len,
                len == self.chars.len(),
                digits == unsigned_part(self@),
                digits == self@.subrange(start as int, len as int),
                forall|k: int| 0 <= k < i - start ==> is_digit(#[trigger] digits[k]),
                value == decimal(digits.subrange(0, i - start)),
                value <= u16::MAX,
            decreases len - i,
        {
            let c = self.chars[i];
            if c < '0' || c > '9' {
                assert(!is_digit(digits[i - start]));
                return None;
            }
            let digit = c as u32 - '0' as u32;
            let ghost shorter = digits.subrange(0, i - start);
            let ghost longer = digits.subrange(0, i - start + 1);
            proof {
                assert(longer.drop_last() =~= shorter);
                assert(longer.last() == c);
                assert(decimal(longer) == value * 10 + digit);
            }
            value = value * 10 + digit;
            if value > 65535 {
                proof {
                    if forall|k: int| 0 <= k < digits.len() ==> is_digit(#[trigger] digits[k]) {
                        lemma_decimal_grows(digits, i - start + 1);
                    }
                }
                return None;
            }
            i = i + 1;
        }
        proof {
            assert(digits.subrange(0, len - start) =~= digits);
        }
        Some(value as u16)
    }
}

} // verus!
