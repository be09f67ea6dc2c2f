//! Writing key files: sections of `key=value` lines, as desktop entries
//! and repository configurations are written.

use crate::error::IoError;
use crate::text::decimal;
use crate::text::decimal_signed;
use crate::text::push_char;
use crate::text::push_decimal;
use vstd::prelude::*;
use vstd::string::StrSliceExecFns;
use vstd::string::StringExecFns;

verus! {

/// What is left to come out of an escape.
#[derive(Debug, Clone, Copy, PartialEq, Eq, Structural)]
pub enum EscapeState {
    /// Nothing.
    Done,
    /// One character.
    Char(char),
    /// A backslash and then one character.
    Backslash(char),
}

/// The characters that stand for one character in a key file, handed out
/// one by one.
#[derive(Debug, Clone, Copy, PartialEq, Eq, Structural)]
pub struct Escape {
    pub state: EscapeState,
}

impl Escape {
    /// The characters that are still to come.
    pub open spec fn remaining(&self) -> Seq<char> {
        match self.state {
            EscapeState::Done => Seq::empty(),
            EscapeState::Char(c) => seq![c],
            EscapeState::Backslash(c) => seq!['\\', c],
        }
    }

    /// The next character, if there is one.
    pub fn next(&mut self) -> (r: Option<char>)
        ensures
            match r {
                Some(c) => old(self).remaining().len() > 0 && c == old(self).remaining()[0]
                    && final(self).remaining() == old(self).remaining().drop_first(),
                None => old(self).remaining().len() == 0 && final(self).remaining().len() == 0,
            },
    {
        match self.state {
            EscapeState::Done => None,
            EscapeState::Char(c) => {
                self.state = EscapeState::Done;
                proof {
                    assert(self.remaining() =~= old(self).remaining().drop_first());
                }
                Some(c)
            },
            EscapeState::Backslash(c) => {
                self.state = EscapeState::Char(c);
                proof {
                    assert(self.remaining() =~= old(self).remaining().drop_first());
                }
                Some('\\')
            },
        }
    }

    /// The character that comes after `n` others, if there is one. The
    /// characters up to it are passed over.
    pub fn nth(&mut self, n: usize) -> (r: Option<char>)
        ensures
            match r {
                Some(c) => n < old(self).remaining().len() && c == old(self).remaining()[n as int]
                    && final(self).remaining() == old(self).remaining().skip(n + 1),
                None => n >= old(self).remaining().len() && final(self).remaining().len() == 0,
            },
    {
        match self.state {
            EscapeState::Done => None,
            EscapeState::Char(c) => {
                self.state = EscapeState::Done;
                if n == 0 {
                    proof {
                        assert(self.remaining() =~= old(self).remaining().skip(1));
                    }
                    Some(c)
                } else {
                    None
                }
            },
            EscapeState::Backslash(c) => {
                if n == 0 {
                    self.state = EscapeState::Char(c);
                    proof {
                        assert(self.remaining() =~= old(self).remaining().skip(1));
                    }
                    Some('\\')
                } else if n == 1 {
                    self.state = EscapeState::Done;
                    proof {
                        assert(self.remaining() =~= old(self).remaining().skip(2));
                    }
                    Some(c)
                } else {
                    self.state = EscapeState::Done;
                    None
                }
            },
        }
    }

    /// How many characters are still to come, at least and at most.
    pub fn size_hint(&self) -> (r: (usize, Option<usize>))
        ensures
            r.0 == self.remaining().len(),
            r.1 == Some(r.0),
    {
        let size: usize = match self.state {
            EscapeState::Done => 0,
            EscapeState::Char(_) => 1,
            EscapeState::Backslash(_) => 2,
        };
        (size, Some(size))
    }
}

/// What stands for a character in a key file: a backslash and `n` for a
/// line feed, the character itself for any other.
pub open spec fn escaped_char(c: char) -> Seq<char> {
    if c == '\n' {
        seq!['\\', 'n']
    } else {
        seq![c]
    }
}

/// What stands for a text in a key file: what stands for each of its
/// characters, one after the other.
pub open spec fn escaped(text: Seq<char>) -> Seq<char>
    decreases text.len(),
{
    if text.len() == 0 {
        Seq::empty()
    } else {
        escaped(text.drop_last()) + escaped_char(text.last())
    }
}

/// The escape of a character: a line feed is written as a backslash and
/// `n`.
pub fn escape_char_newline(v: char) -> (e: Escape)
    ensures
        e.remaining() == escaped_char(v),
{
    Escape {
        state: if v == '\n' {
            EscapeState::Backslash('n')
        } else {
            EscapeState::Char(v)
        },
    }
}

/// The escape of a text: each line feed is written as a backslash and
/// `n`.
pub fn escape_string_newline(v: &str) -> (r: String)
    ensures
        r@ == escaped(v@),
{
    let mut r = String::new();
    let n = v.unicode_len();
    let mut i: usize = 0;
    proof {
        assert(v@.take(0) =~= Seq::empty());
    }
    while i < n
        invariant
            n == v@.len(),
            i <= n,
            r@ == escaped(v@.take(i as int)),
        decreases n - i,
    {
        let mut e = escape_char_newline(v.get_char(i));
        let ghost before = r@;
        let ghost whole = e.remaining();
        loop
            invariant
                before + whole == r@ + e.remaining(),
            ensures
                e.remaining().len() == 0,
            decreases e.remaining().len(),
        {
            let ghost so_far = r@;
            let ghost rest = e.remaining();
            match e.next() {
                Some(c) => {
                    push_char(&mut r, c);
                    proof {
                        assert(rest =~= seq![c] + e.remaining());
                        assert(so_far.push(c) + e.remaining() =~= so_far + (seq![c]
                            + e.remaining()));
                    }
                },
                None => {
                    break ;
                },
            }
        }
        proof {
            assert(v@.take(i + 1).drop_last() =~= v@.take(i as int));
            assert(r@ =~= before + whole);
        }
        i += 1;
    }
    proof {
        assert(v@.take(n as int) =~= v@);
    }
    r
}

/// Why a value could not be written to a key file.
#[derive(Debug)]
pub enum KeyfileError {
    /// What the value's own writing reports.
    Custom(String),
    /// A key file has no way to hold the value.
    UnsupportedData,
    /// The output failed.
    Io(IoError),
}

/// The first 63 values of the base64 alphabet and the last.
pub open spec fn base64_char(v: int) -> char {
    if v < 26 {
        (65 + v) as char
    } else if v < 52 {
        (71 + v) as char
    } else if v < 62 {
        (v - 4) as char
    } else if v == 62 {
        '+'
    } else {
        '/'
    }
}

/// The base64 form of a byte string in the standard alphabet, without
/// padding: four characters for every three bytes, two for a single byte
/// that is left, three for two.
pub open spec fn base64_no_pad(data: Seq<u8>) -> Seq<char>
    decreases data.len(),
{
    if data.len() == 0 {
        Seq::empty()
    } else if data.len() == 1 {
        seq![base64_char(data[0] as int / 4), base64_char(data[0] as int % 4 * 16)]
    } else if data.len() == 2 {
        seq![
            base64_char(data[0] as int / 4),
            base64_char(data[0] as int % 4 * 16 + data[1] as int / 16),
            base64_char(data[1] as int % 16 * 4),
        ]
    } else {
        seq![
            base64_char(data[0] as int / 4),
            base64_char(data[0] as int % 4 * 16 + data[1] as int / 16),
            base64_char(data[1] as int % 16 * 4 + data[2] as int / 64),
            base64_char(data[2] as int % 64),
        ] + base64_no_pad(data.skip(3))
    }
}

/// Calls `base64::Engine::encode` on the engine `STANDARD_NO_PAD`. The
/// result is the base64 form of the bytes in the standard alphabet,
/// without padding.
#[verifier::external_body]
fn base64_encode(data: &[u8]) -> (text: String)
    requires
        data@.len() <= isize::MAX,
    ensures
        text@ == base64_no_pad(data@),
{
    base64::Engine::encode(&base64::engine::general_purpose::STANDARD_NO_PAD, data)
}

/// A writer of key files. What is written is gathered in its output.
#[derive(Debug)]
pub struct Serializer {
    output: String,
}

impl Serializer {
    /// What has been written.
    pub closed spec fn output(&self) -> Seq<char> {
        self.output@
    }

    /// A writer that has written nothing yet.
    pub fn new() -> (s: Serializer)
        ensures
            s.output() == Seq::<char>::empty(),
    {
        Serializer { output: String::new() }
    }

    /// What has been written.
    pub fn into_inner(self) -> (text: String)
        ensures
            text@ == self.output(),
    {
        self.output
    }

    /// Writes a truth value: `true` or `false`.
    pub fn serialize_bool(&mut self, v: bool) -> (r: Result<(), KeyfileError>)
        ensures
            r is Ok,
            final(self).output() == old(self).output() + if v {
                "true"@
            } else {
                "false"@
            },
    {
        if v {
            self.output.append("true");
        } else {
            self.output.append("false");
        }
        Ok(())
    }

    /// Writes a number in decimal digits.
    pub fn serialize_u64(&mut self, v: u64) -> (r: Result<(), KeyfileError>)
        ensures
            r is Ok,
            final(self).output() == old(self).output() + decimal(v as nat),
    {
        push_decimal(&mut self.output, v);
        Ok(())
    }

    /// Writes a number in decimal digits, with a minus sign where it is
    /// negative.
    pub fn serialize_i64(&mut self, v: i64) -> (r: Result<(), KeyfileError>)
        ensures
            r is Ok,
            final(self).output() == old(self).output() + decimal_signed(v as int),
    {
        if v < 0 {
            push_char(&mut self.output, '-');
            let magnitude: u64 = if v == i64::MIN {
                9223372036854775808
            } else {
                (-v) as u64
            };
            push_decimal(&mut self.output, magnitude);
            proof {
                assert(old(self).output().push('-') + decimal((-v) as nat) =~= old(self).output()
                    + decimal_signed(v as int));
            }
        } else {
            push_decimal(&mut self.output, v as u64);
        }
        Ok(())
    }

    /// Writes a character, a line feed as a backslash and `n`.
    pub fn serialize_char(&mut self, v: char) -> (r: Result<(), KeyfileError>)
        ensures
            r is Ok,
            final(self).output() == old(self).output() + escaped_char(v),
    {
        let mut e = escape_char_newline(v);
        let ghost whole = e.remaining();
        loop
            invariant
                old(self).output() + whole == self.output() + e.remaining(),
            ensures
                e.remaining().len() == 0,
            decreases e.remaining().len(),
        {
            let ghost before = self.output();
            let ghost rest = e.remaining();
            match e.next() {
                Some(c) => {
                    push_char(&mut self.output, c);
                    proof {
                        assert(rest =~= seq![c] + e.remaining());
                        assert(before.push(c) + e.remaining() =~= before + (seq![c]
                            + e.remaining()));
                    }
                },
                None => {
                    break ;
                },
            }
        }
        proof {
            assert(self.output() =~= old(self).output() + whole);
        }
        Ok(())
    }

    /// Writes a text, each line feed as a backslash and `n`.
    pub fn serialize_str(&mut self, v: &str) -> (r: Result<(), KeyfileError>)
        ensures
            r is Ok,
            final(self).output() == old(self).output() + escaped(v@),
    {
        let text = escape_string_newline(v);
        self.output.append(text.as_str());
        Ok(())
    }

    /// Writes a byte string in base64, without padding.
    pub fn serialize_bytes(&mut self, v: &[u8]) -> (r: Result<(), KeyfileError>)
        ensures
            match r {
                Ok(()) => final(self).output() == old(self).output() + base64_no_pad(v@),
                Err(e) => e is UnsupportedData && v@.len() > isize::MAX && final(self).output() == old(
                    self,
                ).output(),
            },
    {
        if v.len() > isize::MAX as usize {
            return Err(KeyfileError::UnsupportedData);
        }
        let text = base64_encode(v);
        self.output.append(text.as_str());
        Ok(())
    }

    /// Writes nothing, for a value that is not there.
    pub fn serialize_none(&mut self) -> (r: Result<(), KeyfileError>)
        ensures
            r is Ok,
            final(self).output() == old(self).output(),
    {
        Ok(())
    }

    /// Writes nothing, for a value without content.
    pub fn serialize_unit(&mut self) -> (r: Result<(), KeyfileError>)
        ensures
            r is Ok,
            final(self).output() == old(self).output(),
    {
        Ok(())
    }

    /// Writes the name of a variant that holds nothing.
    pub fn serialize_unit_variant(&mut self, variant: &str) -> (r: Result<(), KeyfileError>)
        ensures
            r is Ok,
            final(self).output() == old(self).output() + variant@,
    {
        self.output.append(variant);
        Ok(())
    }

    /// Begins a section: its name in square brackets on a line of its
    /// own.
    pub fn serialize_struct(&mut self, name: &str) -> (r: Result<(), KeyfileError>)
        ensures
            r is Ok,
            final(self).output() == old(self).output() + seq!['['] + name@ + seq![']', '\n'],
    {
        proof {
            reveal_strlit("[");
            reveal_strlit("]\n");
            assert("["@ =~= seq!['[']);
            assert("]\n"@ =~= seq![']', '\n']);
        }
        self.output.append("[");
        self.output.append(name);
        self.output.append("]\n");
        Ok(())
    }

    /// Begins a field: its key and an equals sign. The value is written
    /// behind it, and the field is closed with `end_field`.
    pub fn serialize_field(&mut self, key: &str) -> (r: Result<(), KeyfileError>)
        ensures
            r is Ok,
            final(self).output() == old(self).output() + key@ + seq!['='],
    {
        proof {
            reveal_strlit("=");
            assert("="@ =~= seq!['=']);
        }
        self.output.append(key);
        self.output.append("=");
        Ok(())
    }

    /// Closes a field: ends its line.
    pub fn end_field(&mut self) -> (r: Result<(), KeyfileError>)
        ensures
            r is Ok,
            final(self).output() == old(self).output() + seq!['\n'],
    {
        proof {
            reveal_strlit("\n");
            assert("\n"@ =~= seq!['\n']);
        }
        self.output.append("\n");
        Ok(())
    }

    /// Closes a section with an empty line.
    pub fn end(&mut self) -> (r: Result<(), KeyfileError>)
        ensures
            r is Ok,
            final(self).output() == old(self).output() + seq!['\n'],
    {
        proof {
            reveal_strlit("\n");
            assert("\n"@ =~= seq!['\n']);
        }
        self.output.append("\n");
        Ok(())
    }

    /// Refuses a value that a key file has no way to hold: a sequence, a
    /// tuple, a map, a variant with content.
    pub fn serialize_seq(&mut self) -> (r: Result<(), KeyfileError>)
        ensures
            r matches Err(KeyfileError::UnsupportedData),
            final(self).output() == old(self).output(),
    {
        Err(KeyfileError::UnsupportedData)
    }
}

} // verus!
