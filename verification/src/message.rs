//! Error texts that hold numbers.
use crate::{BitstreamError, Fault};
use vstd::prelude::*;

verus! {

/// The digit `d`, below 16, as text.
pub open spec fn digit_text(d: u8) -> Seq<char> {
    match d {
        0 => "0"@,
        1 => "1"@,
        2 => "2"@,
        3 => "3"@,
        4 => "4"@,
        5 => "5"@,
        6 => "6"@,
        7 => "7"@,
        8 => "8"@,
        9 => "9"@,
        10 => "a"@,
        11 => "b"@,
        12 => "c"@,
        13 => "d"@,
        14 => "e"@,
        _ => "f"@,
    }
}

/// The decimal digits of `v`.
pub open spec fn decimal(v: nat) -> Seq<char>
    decreases v,
{
    if v < 10 {
        digit_text(v as u8)
    } else {
        decimal(v / 10) + digit_text((v % 10) as u8)
    }
}

/// `v` as a decimal number with its sign.
pub open spec fn number_text(v: int) -> Seq<char> {
    if v < 0 {
        "-"@ + decimal((-v) as nat)
    } else {
        decimal(v as nat)
    }
}

/// The byte `b` as two hexadecimal digits.
pub open spec fn hex_text(b: u8) -> Seq<char> {
    digit_text(b / 16) + digit_text(b % 16)
}

fn digit_str(d: u8) -> (s: &'static str)
    ensures
        s@ == digit_text(d),
{
    match d {
        0 => "0",
        1 => "1",
        2 => "2",
        3 => "3",
        4 => "4",
        5 => "5",
        6 => "6",
        7 => "7",
        8 => "8",
        9 => "9",
        10 => "a",
        11 => "b",
        12 => "c",
        13 => "d",
        14 => "e",
        _ => "f",
    }
}

fn append_decimal(s: &mut String, v: u128)
    ensures
        final(s)@ == old(s)@ + decimal(v as nat),
    decreases v,
{
    if v < 10 {
        s.append(digit_str(v as u8));
    } else {
        let ghost before = s@;
        append_decimal(s, v / 10);
        s.append(digit_str((v % 10) as u8));
        proof {
            assert(s@ =~= before + decimal(v as nat));
        }
    }
}

/// The text of an error, put together from words and numbers.
pub struct Message {
    text: String,
}

impl View for Message {
    type V = Seq<char>;

    closed spec fn view(&self) -> Seq<char> {
        self.text@
    }
}

impl Message {
    /// A message that starts with `words`.
    pub fn new(words: &str) -> (m: Message)
        ensures
            m@ == words@,
    {
        Message { text: words.to_owned() }
    }

    /// The message with `words` behind it.
    pub fn with(self, words: &str) -> (m: Message)
        ensures
            m@ == self@ + words@,
    {
        let mut text = self.text;
        text.append(words);
        Message { text }
    }

    /// The message with the number `v` behind it.
    pub fn num(self, v: i128) -> (m: Message)
        ensures
            m@ == self@ + number_text(v as int),
    {
        let mut text = self.text;
        if v < 0 {
            text.append("-");
            append_decimal(&mut text, (-(v + 1)) as u128 + 1);
            proof {
                assert(text@ =~= self.text@ + number_text(v as int));
            }
        } else {
            append_decimal(&mut text, v as u128);
        }
        Message { text }
    }

    /// The message with the byte `b` behind it, as two hexadecimal digits.
    pub fn hex(self, b: u8) -> (m: Message)
        ensures
            m@ == self@ + hex_text(b),
    {
        let mut text = self.text;
        text.append(digit_str(b / 16));
        text.append(digit_str(b % 16));
        proof {
            assert(text@ =~= self.text@ + hex_text(b));
        }
        Message { text }
    }

    /// The message as the text of an [`BitstreamError::InvalidData`].
    pub fn invalid(self) -> (e: BitstreamError)
        ensures
            e.fault() == Fault::Invalid,
            e.text() == self@,
    {
        BitstreamError::InvalidData(self.text)
    }

    /// The message as the text of an [`BitstreamError::Unsupported`].
    pub fn unsupported(self) -> (e: BitstreamError)
        ensures
            e.fault() == Fault::Unsupported,
            e.text() == self@,
    {
        BitstreamError::Unsupported(self.text)
    }

    /// The message as the text of an [`BitstreamError::UnexpectedEnd`].
    pub fn unexpected_end(self) -> (e: BitstreamError)
        ensures
            e.fault() == Fault::End,
            e.text() == self@,
    {
        BitstreamError::UnexpectedEnd(self.text)
    }
}

/// A number is written digit by digit: its last digit stands behind the number without
/// it, and a minus sign in front of a negative one.
pub proof fn law_number_text(v: nat, d: u8)
    requires
        d < 10,
    ensures
        v > 0 ==> number_text((10 * v + d) as int) == number_text(v as int) + digit_text(d),
        number_text(d as int) == digit_text(d),
        v > 0 ==> number_text(-(v as int)) == "-"@ + number_text(v as int),
{
}

/// The sixteen digits, and a byte as two of them.
pub proof fn law_hex_text(b: u8, hi: u8, lo: u8)
    requires
        b == 16 * hi + lo,
        lo < 16,
    ensures
        hex_text(b) == digit_text(hi) + digit_text(lo),
        digit_text(hi).len() == 1,
        hi < 10 ==> digit_text(hi)[0] == (48 + hi) as u8 as char,
        10 <= hi ==> digit_text(hi)[0] == (87 + hi) as u8 as char,
{
    reveal_strlit("0");
    reveal_strlit("1");
    reveal_strlit("2");
    reveal_strlit("3");
    reveal_strlit("4");
    reveal_strlit("5");
    reveal_strlit("6");
    reveal_strlit("7");
    reveal_strlit("8");
    reveal_strlit("9");
    reveal_strlit("a");
    reveal_strlit("b");
    reveal_strlit("c");
    reveal_strlit("d");
    reveal_strlit("e");
    reveal_strlit("f");
}

} // verus!
