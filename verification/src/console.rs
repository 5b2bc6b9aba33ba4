//! Line editing of console input: the characters typed so far, with
//! backspace handling, and the line handed to a reader once it ends.
use vstd::prelude::*;

verus! {

/// Line feed.
pub const LF: u8 = 0x0a;
/// Carriage return.
pub const CR: u8 = 0x0d;
/// Delete.
pub const DL: u8 = 0x7f;
/// Backspace.
pub const BS: u8 = 0x08;
/// Space.
pub const SPACE: u8 = 0x20;

/// What the console shows for a key.
#[derive(Debug, Clone, Copy, PartialEq, Eq, Structural)]
pub enum KeyEcho {
    /// Echo this byte.
    Echo(u8),
    /// Erase the last character on screen: backspace, space, backspace.
    Erase,
    /// Show nothing.
    Nothing,
}

/// The UTF-8 bytes of the character with code `c`, below 256.
pub open spec fn utf8_of(c: u8) -> Seq<u8> {
    if c < 0x80 {
        seq![c]
    } else {
        seq![(0xc0u8 | (c >> 6u8)) as u8, (0x80u8 | (c & 0x3fu8)) as u8]
    }
}

/// The UTF-8 bytes of a line of characters with codes below 256.
pub open spec fn utf8_line(chars: Seq<u8>) -> Seq<u8>
    decreases chars.len(),
{
    if chars.len() == 0 {
        Seq::empty()
    } else {
        utf8_line(chars.drop_last()) + utf8_of(chars.last())
    }
}

/// The line being typed, as character codes.
pub struct LineEditor {
    chars: Vec<u8>,
}

impl LineEditor {
    /// The characters typed so far.
    pub closed spec fn view(&self) -> Seq<u8> {
        self.chars@
    }

    /// An empty line.
    pub fn new() -> (e: Self)
        ensures
            e@ == Seq::<u8>::empty(),
    {
        LineEditor { chars: Vec::new() }
    }

    /// Takes key `c`: a line feed or carriage return ends the line with a
    /// newline, backspace and delete erase the last character if there is
    /// one, anything else is typed. Returns what to show and whether the
    /// line has ended.
    pub fn feed(&mut self, c: u8) -> (r: (KeyEcho, bool))
        ensures
            (c == LF || c == CR) ==> r == (KeyEcho::Echo(LF), true) && final(self)@ == old(self)@.push(LF),
            (c == BS || c == DL) && old(self)@.len() > 0 ==> r == (KeyEcho::Erase, false)
                && final(self)@ == old(self)@.drop_last(),
            (c == BS || c == DL) && old(self)@.len() == 0 ==> r == (KeyEcho::Nothing, false)
                && final(self)@ == old(self)@,
            !(c == LF || c == CR || c == BS || c == DL) ==> r == (KeyEcho::Echo(c), false)
                && final(self)@ == old(self)@.push(c),
    {
        if c == LF || c == CR {
            self.chars.push(LF);
            (KeyEcho::Echo(LF), true)
        } else if c == BS || c == DL {
            if self.chars.len() > 0 {
                self.chars.pop();
                assert(self@ =~= old(self)@.drop_last());
                (KeyEcho::Erase, false)
            } else {
                (KeyEcho::Nothing, false)
            }
        } else {
            self.chars.push(c);
            (KeyEcho::Echo(c), false)
        }
    }

    /// Number of UTF-8 bytes of the line.
    pub fn byte_len(&self) -> (n: usize)
        requires
            self@.len() * 2 <= usize::MAX,
        ensures
            n == utf8_line(self@).len(),
    {
        let mut n: usize = 0;
        let mut i: usize = 0;
        while i < self.chars.len()
            invariant
                i <= self@.len(),
                self@.len() * 2 <= usize::MAX,
                n == utf8_line(self@.take(i as int)).len(),
                n <= 2 * i,
            decreases self@.len() - i,
        {
            proof {
                assert(self@.take(i + 1).drop_last() =~= self@.take(i as int));
            }
            if self.chars[i] < 0x80 {
                n = n + 1;
            } else {
                n = n + 2;
            }
            i = i + 1;
        }
        proof {
            assert(self@.take(self@.len() as int) =~= self@);
        }
        n
    }

    /// Copies the UTF-8 bytes of the line to the front of `buf`, empties
    /// the line, and returns how many bytes were copied.
    pub fn take_line(&mut self, buf: &mut [u8]) -> (n: usize)
        requires
            old(self)@.len() * 2 <= usize::MAX,
            utf8_line(old(self)@).len() <= old(buf)@.len(),
        ensures
            n == utf8_line(old(self)@).len(),
            final(buf)@.len() == old(buf)@.len(),
            final(buf)@.subrange(0, n as int) == utf8_line(old(self)@),
            final(buf)@.subrange(n as int, final(buf)@.len() as int) == old(buf)@.subrange(n as int, old(buf)@.len() as int),
            final(self)@ == Seq::<u8>::empty(),
    {
        let ghost line = self@;
        let mut n: usize = 0;
        let mut i: usize = 0;
        while i < self.chars.len()
            invariant
                self@ == line,
                i <= line.len(),
                line.len() * 2 <= usize::MAX,
                utf8_line(line).len() <= buf@.len(),
                buf@.len() == old(buf)@.len(),
                n == utf8_line(line.take(i as int)).len(),
                buf@.subrange(0, n as int) == utf8_line(line.take(i as int)),
                buf@.subrange(n as int, buf@.len() as int) == old(buf)@.subrange(n as int, old(buf)@.len() as int),
            decreases line.len() - i,
        {
            proof {
                assert(line.take(i + 1).drop_last() =~= line.take(i as int));
                assert(line.take(i + 1).last() == line[i as int]);
                lemma_utf8_prefix_len(line, i as int + 1);
            }
            let c = self.chars[i];
            let ghost before = buf@;
            if c < 0x80 {
                buf[n] = c;
                proof {
                    assert(buf@.subrange(0, n + 1) =~= before.subrange(0, n as int).push(c));
                    assert(utf8_of(c) =~= seq![c]);
                    assert(buf@.subrange(n + 1, buf@.len() as int) =~= before.subrange(n + 1, before.len() as int));
                }
                n = n + 1;
            } else {
                let b0: u8 = 0xc0u8 | (c >> 6u8);
                let b1: u8 = 0x80u8 | (c & 0x3fu8);
                buf[n] = b0;
                buf[n + 1] = b1;
                proof {
                    assert(buf@.subrange(0, n + 2) =~= before.subrange(0, n as int) + seq![b0, b1]);
                    assert(buf@.subrange(n + 2, buf@.len() as int) =~= before.subrange(n + 2, before.len() as int));
                }
                n = n + 2;
            }
            proof {
                assert(buf@.subrange(n as int, buf@.len() as int) =~= old(buf)@.subrange(n as int, old(buf)@.len() as int)) by {
                    assert forall|k: int| 0 <= k < buf@.len() - n implies buf@.subrange(n as int, buf@.len() as int)[k]
                        == old(buf)@.subrange(n as int, old(buf)@.len() as int)[k] by {
                        let pos = n + k;
                        let before_n = (if c < 0x80 { n - 1 } else { n - 2 }) as int;
                        assert(before.subrange(before_n, before.len() as int)[pos - before_n]
                            == old(buf)@.subrange(before_n, old(buf)@.len() as int)[pos - before_n]);
                    }
                }
            }
            i = i + 1;
        }
        proof {
            assert(line.take(line.len() as int) =~= line);
        }
        self.chars.clear();
        n
    }
}

/// The UTF-8 length of a prefix is at most the whole line's.
pub proof fn lemma_utf8_prefix_len(line: Seq<u8>, k: int)
    requires
        0 <= k <= line.len(),
    ensures
        utf8_line(line.take(k)).len() <= utf8_line(line).len(),
        utf8_line(line.take(k)).len() <= 2 * k,
    decreases line.len(),
{
    if k < line.len() {
        assert(line.drop_last().take(k) =~= line.take(k));
        lemma_utf8_prefix_len(line.drop_last(), k);
    } else {
        assert(line.take(k) =~= line);
        if line.len() > 0 {
            assert(line.drop_last().take(k - 1) =~= line.drop_last());
            lemma_utf8_prefix_len(line.drop_last(), k - 1);
        }
    }
}

} // verus!
