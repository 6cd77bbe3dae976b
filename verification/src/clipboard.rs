//! Putting text on the system clipboard from inside the alternate screen.
//!
//! Uses OSC 52: the text is handed to the *terminal*, which owns the real
//! clipboard. That is what makes it work over SSH, and it needs no machinery but
//! a base64 encoder.
//!
//! Not every terminal implements it. iTerm2, Ghostty, kitty, WezTerm and
//! Alacritty do; macOS Terminal.app does not. tmux needs `set-clipboard on`.

use crate::text::{chars_of, decimal, opt_str, push_decimal, push_text, string_of};
use vstd::prelude::*;
use vstd::string::StringSliceAdditionalSpecFns;

verus! {

/// Largest text we will try to send. Terminals silently drop oversized OSC 52
/// payloads, so past this we report a failure the caller can show instead of
/// truncating a note behind the user's back.
pub const MAX_BYTES: usize = 102_400;

// ---- base64 ----

/// The character for six bits, in the standard alphabet.
pub open spec fn symbol(v: int) -> char {
    if v < 26 {
        ('A' as int + v) as char
    } else if v < 52 {
        ('a' as int + v - 26) as char
    } else if v < 62 {
        ('0' as int + v - 52) as char
    } else if v == 62 {
        '+'
    } else {
        '/'
    }
}

/// Up to three bytes as one number of twenty-four bits, missing bytes zero.
pub open spec fn packed(chunk: Seq<u8>) -> int {
    (if chunk.len() > 0 {
        chunk[0] as int
    } else {
        0
    }) * 65_536 + (if chunk.len() > 1 {
        chunk[1] as int
    } else {
        0
    }) * 256 + (if chunk.len() > 2 {
        chunk[2] as int
    } else {
        0
    })
}

/// The four characters of up to three bytes: six bits each, `=` where there is
/// nothing left to say.
pub open spec fn quad(chunk: Seq<u8>) -> Seq<char> {
    let n = packed(chunk);
    seq![
        symbol(n / 262_144),
        symbol((n / 4096) % 64),
        if chunk.len() > 1 {
            symbol((n / 64) % 64)
        } else {
            '='
        },
        if chunk.len() > 2 {
            symbol(n % 64)
        } else {
            '='
        },
    ]
}

/// Base64 per RFC 4648: three bytes at a time.
pub open spec fn encoded(data: Seq<u8>) -> Seq<char>
    decreases data.len(),
{
    if data.len() == 0 {
        Seq::empty()
    } else if data.len() <= 3 {
        quad(data)
    } else {
        quad(data.take(3)) + encoded(data.skip(3))
    }
}

fn symbol_for(v: u32) -> (c: char)
    requires
        v < 64,
    ensures
        c == symbol(v as int),
{
    if v < 26 {
        (65 + v as u8) as char
    } else if v < 52 {
        (97 + (v - 26) as u8) as char
    } else if v < 62 {
        (48 + (v - 52) as u8) as char
    } else if v == 62 {
        '+'
    } else {
        '/'
    }
}

/// Base64 per RFC 4648: the standard alphabet, padded with `=`.
pub fn base64(data: &[u8]) -> (out: String)
    ensures
        out@ == encoded(data@),
{
    let mut out: Vec<char> = Vec::new();
    let n: usize = data.len();
    let mut i: usize = 0;
    proof {
        assert(data@.skip(0) =~= data@);
        assert(out@ + encoded(data@.skip(0)) =~= encoded(data@));
    }
    while i < n
        invariant
            i <= n,
            n == data@.len(),
            out@ + encoded(data@.skip(i as int)) == encoded(data@),
        decreases n - i,
    {
        let left: usize = n - i;
        let b0: u32 = data[i] as u32;
        let b1: u32 = if left > 1 {
            data[i + 1] as u32
        } else {
            0
        };
        let b2: u32 = if left > 2 {
            data[i + 2] as u32
        } else {
            0
        };
        let word: u32 = b0 * 65_536 + b1 * 256 + b2;
        let ghost rest = data@.skip(i as int);
        let ghost chunk = if left > 3 {
            rest.take(3)
        } else {
            rest
        };
        let ghost before = out@;
        proof {
            assert(word == packed(chunk));
        }
        out.push(symbol_for(word / 262_144));
        out.push(symbol_for((word / 4096) % 64));
        out.push(
            if left > 1 {
                symbol_for((word / 64) % 64)
            } else {
                '='
            },
        );
        out.push(
            if left > 2 {
                symbol_for(word % 64)
            } else {
                '='
            },
        );
        proof {
            assert(out@ =~= before + quad(chunk));
            if left > 3 {
                assert(rest.skip(3) =~= data@.skip(i + 3));
                assert(before + encoded(rest) =~= out@ + encoded(data@.skip(i + 3)));
            } else {
                assert(data@.skip(n as int) =~= Seq::empty());
                assert(before + encoded(rest) =~= out@ + encoded(data@.skip(n as int)));
            }
        }
        i = if left > 3 {
            i + 3
        } else {
            n
        };
    }
    proof {
        assert(data@.skip(n as int) =~= Seq::empty());
        assert(out@ + encoded(data@.skip(n as int)) =~= out@);
    }
    string_of(&out)
}

// ---- the escape ----

/// The escape that sets the clipboard to a text.
pub open spec fn escape(text: Seq<char>) -> Seq<char> {
    seq!['\u{1b}', ']', '5', '2', ';', 'c', ';'] + encoded(
        vstd::utf8::encode_utf8(text),
    ) + seq!['\u{7}']
}

/// The OSC 52 escape that sets the clipboard to `text`, or `None` if the text is
/// past [`MAX_BYTES`].
///
/// Sent plain, always - including inside tmux. tmux relays a plain OSC 52 to the
/// outer terminal itself when `set-clipboard on`, and populates its own paste
/// buffer while it is at it. The tempting alternative, wrapping this in tmux's
/// DCS passthrough, needs `allow-passthrough on`, which is *off* by default, so
/// it turns a working escape into one tmux silently discards.
pub fn osc52(text: &str) -> (out: Option<String>)
    ensures
        opt_str(out) == (if vstd::utf8::encode_utf8(text@).len() > MAX_BYTES {
            None
        } else {
            Some(escape(text@))
        }),
{
    let bytes = text.as_bytes();
    if bytes.len() > MAX_BYTES {
        return None;
    }
    let mut out: Vec<char> = Vec::new();
    out.push('\u{1b}');
    out.push(']');
    out.push('5');
    out.push('2');
    out.push(';');
    out.push('c');
    out.push(';');
    push_text(&mut out, &base64(bytes));
    out.push('\u{7}');
    proof {
        assert(out@ =~= escape(text@));
    }
    Some(string_of(&out))
}

/// Why a text could not be copied.
#[derive(Debug, Clone, Copy, PartialEq, Eq)]
pub enum CopyError {
    /// More bytes than the terminal would take.
    TooMuch { bytes: usize },
}

impl CopyError {
    pub open spec fn says(self) -> Seq<char> {
        match self {
            CopyError::TooMuch { bytes } => "too much text to copy ("@ + decimal(bytes as nat)
                + " bytes, limit "@ + decimal(MAX_BYTES as nat) + ")"@,
        }
    }

    /// What to tell the user.
    pub fn message(&self) -> (out: String)
        ensures
            out@ == self.says(),
    {
        match self {
            CopyError::TooMuch { bytes } => {
                let mut out = chars_of("too much text to copy (");
                push_decimal(&mut out, *bytes as u64);
                push_text(&mut out, " bytes, limit ");
                push_decimal(&mut out, MAX_BYTES as u64);
                push_text(&mut out, ")");
                proof {
                    assert(out@ =~= self.says());
                }
                string_of(&out)
            },
        }
    }
}

/// Put the escape that copies `text` on a terminal's output. Nothing partial
/// reaches it: too long a text is refused, not cut.
pub fn copy(out: &mut Vec<u8>, text: &str) -> (done: Result<(), CopyError>)
    ensures
        match done {
            Ok(()) => vstd::utf8::encode_utf8(text@).len() <= MAX_BYTES && final(out)@ == old(out)@
                + vstd::utf8::encode_utf8(escape(text@)),
            Err(e) => vstd::utf8::encode_utf8(text@).len() > MAX_BYTES && final(out)@ == old(out)@
                && e == (CopyError::TooMuch {
                bytes: vstd::utf8::encode_utf8(text@).len() as usize,
            }),
        },
{
    match osc52(text) {
        Some(seq) => {
            let bytes = seq.as_str().as_bytes();
            let ghost start = out@;
            let mut i: usize = 0;
            proof {
                assert(start + bytes@.take(0) =~= start);
            }
            while i < bytes.len()
                invariant
                    i <= bytes@.len(),
                    out@ == start + bytes@.take(i as int),
                decreases bytes@.len() - i,
            {
                out.push(bytes[i]);
                proof {
                    assert(start + bytes@.take(i + 1) =~= (start + bytes@.take(i as int)).push(
                        bytes@[i as int],
                    ));
                }
                i += 1;
            }
            proof {
                assert(bytes@.take(i as int) =~= bytes@);
            }
            Ok(())
        },
        None => Err(CopyError::TooMuch { bytes: text.as_bytes().len() }),
    }
}

// ---- laws ----

/// The six bits a character stands for.
pub open spec fn bits(c: char) -> int {
    if 'A' <= c <= 'Z' {
        c as int - 'A' as int
    } else if 'a' <= c <= 'z' {
        c as int - 'a' as int + 26
    } else if '0' <= c <= '9' {
        c as int - '0' as int + 52
    } else if c == '+' {
        62
    } else {
        63
    }
}

/// What a payload stands for: three bytes for every four characters, less one
/// for each `=`.
#[verifier::opaque]
pub open spec fn decoded(s: Seq<char>) -> Seq<u8>
    decreases s.len(),
{
    if s.len() < 4 {
        Seq::empty()
    } else {
        let n = bits(s[0]) * 262_144 + bits(s[1]) * 4096 + (if s[2] == '=' {
            0
        } else {
            bits(s[2])
        }) * 64 + (if s[3] == '=' {
            0
        } else {
            bits(s[3])
        });
        let bytes = seq![(n / 65_536) as u8, ((n / 256) % 256) as u8, (n % 256) as u8];
        if s[2] == '=' {
            bytes.take(1)
        } else if s[3] == '=' {
            bytes.take(2)
        } else {
            bytes + decoded(s.skip(4))
        }
    }
}

proof fn lemma_symbol(v: int)
    requires
        0 <= v < 64,
    ensures
        bits(symbol(v)) == v,
        symbol(v) != '=',
{
}

/// Twenty-four bits, taken six or eight at a time.
proof fn lemma_sextets(a: int, b: int, c: int)
    requires
        0 <= a < 256,
        0 <= b < 256,
        0 <= c < 256,
    ensures
        ({
            let n = a * 65_536 + b * 256 + c;
            &&& 0 <= n / 262_144 < 64
            &&& (n / 262_144) * 262_144 + ((n / 4096) % 64) * 4096 + ((n / 64) % 64) * 64 + n % 64
                == n
            &&& n / 65_536 == a
            &&& (n / 256) % 256 == b
            &&& n % 256 == c
            &&& c == 0 ==> n % 64 == 0
            &&& b == 0 && c == 0 ==> (n / 64) % 64 == 0
        }),
{
    let n = a * 65_536 + b * 256 + c;
    assert(n / 256 == a * 256 + b);
    assert(n / 4096 == (n / 64) / 64);
    assert(n / 262_144 == (n / 4096) / 64);
    if b == 0 && c == 0 {
        assert(n / 64 == a * 1024);
    }
}

proof fn lemma_quad(chunk: Seq<u8>, rest: Seq<char>)
    requires
        0 < chunk.len() <= 3,
        chunk.len() < 3 ==> rest.len() == 0,
    ensures
        decoded(quad(chunk) + rest) == chunk + (if chunk.len() == 3 {
            decoded(rest)
        } else {
            Seq::empty()
        }),
{
    reveal_with_fuel(decoded, 1);
    let s = quad(chunk) + rest;
    let n = packed(chunk);
    let (v0, v1, v2, v3) = (n / 262_144, (n / 4096) % 64, (n / 64) % 64, n % 64);
    let a = chunk[0] as int;
    let b = if chunk.len() > 1 {
        chunk[1] as int
    } else {
        0
    };
    let c = if chunk.len() > 2 {
        chunk[2] as int
    } else {
        0
    };
    lemma_sextets(a, b, c);
    lemma_symbol(v0);
    lemma_symbol(v1);
    lemma_symbol(v2);
    lemma_symbol(v3);
    assert(s.skip(4) =~= rest);
    let bytes = seq![(n / 65_536) as u8, ((n / 256) % 256) as u8, (n % 256) as u8];
    assert(bytes[0] == chunk[0]);
    assert(chunk.len() > 1 ==> bytes[1] == chunk[1]);
    assert(chunk.len() > 2 ==> bytes[2] == chunk[2]);
    if chunk.len() == 1 {
        assert(bytes.take(1) =~= chunk);
        assert(chunk + Seq::<u8>::empty() =~= chunk);
    } else if chunk.len() == 2 {
        assert(bytes.take(2) =~= chunk);
        assert(chunk + Seq::<u8>::empty() =~= chunk);
    } else {
        assert(bytes =~= chunk);
    }
}

/// Decoding a payload gives the bytes back, whatever they are.
pub proof fn law_base64_decodes(data: Seq<u8>)
    ensures
        decoded(encoded(data)) == data,
        encoded(data).len() % 4 == 0,
    decreases data.len(),
{
    if data.len() > 3 {
        law_base64_decodes(data.skip(3));
        lemma_quad(data.take(3), encoded(data.skip(3)));
        assert(data.take(3) + data.skip(3) =~= data);
        assert(quad(data.take(3)).len() == 4);
    } else if data.len() > 0 {
        lemma_quad(data, Seq::empty());
        lemma_decoded_nothing();
        assert(quad(data).len() == 4);
        assert(quad(data) + Seq::<char>::empty() =~= quad(data));
        assert(data + Seq::<u8>::empty() =~= data);
    } else {
        lemma_decoded_nothing();
        assert(data =~= Seq::empty());
    }
}

proof fn lemma_decoded_nothing()
    ensures
        decoded(Seq::empty()) == Seq::<u8>::empty(),
{
    reveal_with_fuel(decoded, 1);
}

/// What is put on the clipboard is the text: the payload of the escape, decoded, is its
/// bytes.
pub proof fn law_the_escape_carries_the_text(text: Seq<char>)
    ensures
        decoded(escape(text).subrange(7, escape(text).len() - 1)) == vstd::utf8::encode_utf8(text),
        escape(text).take(7) == seq!['\u{1b}', ']', '5', '2', ';', 'c', ';'],
        escape(text).last() == '\u{7}',
{
    let payload = encoded(vstd::utf8::encode_utf8(text));
    law_base64_decodes(vstd::utf8::encode_utf8(text));
    assert(escape(text).subrange(7, escape(text).len() - 1) =~= payload);
    assert(escape(text).take(7) =~= seq!['\u{1b}', ']', '5', '2', ';', 'c', ';']);
}

} // verus!
