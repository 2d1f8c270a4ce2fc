//! UART command processing for communication with the main JetKVM system.
//!
//! Bytes taken from the receive ring buffer are assembled into lines; a line
//! ends at a newline or when the line buffer is full, and is then parsed into
//! a [`Command`]: a line is a command when, read as UTF-8 and trimmed of
//! Unicode white space at both ends, it is the command's name.

use vstd::prelude::*;
use vstd::string::StringSliceAdditionalSpecFns;
use crate::config::{NAME, VERSION};
use crate::panic_handler::uart_write_str;
use crate::text::{ascii_chars, is_name_text, lemma_padded_iff_trimmed, trim_chars};
use vstd::utf8::{decode_utf8, valid_utf8};

verus! {

/// Capacity of the line buffer; a line is cut at `RX_LINE_SIZE - 1` bytes.
pub const RX_LINE_SIZE: usize = 128;
/// Most bytes taken from the receive ring buffer at once.
pub const CHUNK: usize = 64;

/// Commands received via UART.
#[derive(Clone, Copy, PartialEq, Eq, Debug, Structural)]
pub enum Command {
    PowerOn,
    PowerOff,
    RestoreModeOff,
    RestoreModeOn,
    RestoreModeLastState,
    Version,
    FwUpdate,
    Unknown,
}

/// The name a command is sent as (empty for `Unknown`).
pub open spec fn command_text(c: Command) -> Seq<u8> {
    match c {
        Command::PowerOn => seq![0x50u8, 0x57u8, 0x52u8, 0x5Fu8, 0x4Fu8, 0x4Eu8],
        Command::PowerOff => seq![0x50u8, 0x57u8, 0x52u8, 0x5Fu8, 0x4Fu8, 0x46u8, 0x46u8],
        Command::RestoreModeOff => seq![
            0x52u8, 0x45u8, 0x53u8, 0x54u8, 0x4Fu8, 0x52u8, 0x45u8, 0x5Fu8, 0x4Du8, 0x4Fu8, 0x44u8, 0x45u8, 0x5Fu8, 0x4Fu8,
            0x46u8, 0x46u8
        ],
        Command::RestoreModeOn => seq![
            0x52u8, 0x45u8, 0x53u8, 0x54u8, 0x4Fu8, 0x52u8, 0x45u8, 0x5Fu8, 0x4Du8, 0x4Fu8, 0x44u8, 0x45u8, 0x5Fu8, 0x4Fu8,
            0x4Eu8
        ],
        Command::RestoreModeLastState => seq![
            0x52u8, 0x45u8, 0x53u8, 0x54u8, 0x4Fu8, 0x52u8, 0x45u8, 0x5Fu8, 0x4Du8, 0x4Fu8, 0x44u8, 0x45u8, 0x5Fu8, 0x4Cu8,
            0x41u8, 0x53u8, 0x54u8, 0x5Fu8, 0x53u8, 0x54u8, 0x41u8, 0x54u8, 0x45u8
        ],
        Command::Version => seq![0x56u8, 0x45u8, 0x52u8, 0x53u8, 0x49u8, 0x4Fu8, 0x4Eu8],
        Command::FwUpdate => seq![0x46u8, 0x57u8, 0x5Fu8, 0x55u8, 0x50u8, 0x44u8, 0x41u8, 0x54u8, 0x45u8],
        Command::Unknown => Seq::empty(),
    }
}

/// `e` is the UTF-8 encoding of a Unicode `White_Space` character
/// (U+0009..U+000D, U+0020, U+0085, U+00A0, U+1680, U+2000..U+200A,
/// U+2028, U+2029, U+202F, U+205F, U+3000).
pub open spec fn ws_encoding(e: Seq<u8>) -> bool {
    ||| e.len() == 1 && ((0x09 <= e[0] && e[0] <= 0x0D) || e[0] == 0x20)
    ||| e.len() == 2 && e[0] == 0xC2 && (e[1] == 0x85 || e[1] == 0xA0)
    ||| e.len() == 3 && e[0] == 0xE1 && e[1] == 0x9A && e[2] == 0x80
    ||| e.len() == 3 && e[0] == 0xE2 && e[1] == 0x80 && ((0x80 <= e[2] && e[2] <= 0x8A) || e[2]
        == 0xA8 || e[2] == 0xA9 || e[2] == 0xAF)
    ||| e.len() == 3 && e[0] == 0xE2 && e[1] == 0x81 && e[2] == 0x9F
    ||| e.len() == 3 && e[0] == 0xE3 && e[1] == 0x80 && e[2] == 0x80
}

/// `s` is a concatenation of encodings of white-space characters.
pub open spec fn ws_string(s: Seq<u8>) -> bool
    decreases s.len(),
{
    if s.len() == 0 {
        true
    } else {
        ||| (s.len() >= 1 && ws_encoding(s.take(1)) && ws_string(s.skip(1)))
        ||| (s.len() >= 2 && ws_encoding(s.take(2)) && ws_string(s.skip(2)))
        ||| (s.len() >= 3 && ws_encoding(s.take(3)) && ws_string(s.skip(3)))
    }
}

/// `line` is `text` with white-space encodings before and after it (the
/// byte-level form the parser scans for; see [`lemma_command_of_line`]).
pub open spec fn padded(line: Seq<u8>, text: Seq<u8>) -> bool {
    exists|i: int, j: int|
        0 <= i <= j <= line.len() && ws_string(#[trigger] line.subrange(0, i)) && line.subrange(
            i,
            j,
        ) == text && ws_string(#[trigger] line.subrange(j, line.len() as int))
}

/// The command whose name a line holds between white-space encodings.
pub open spec fn padded_command(line: Seq<u8>) -> Command {
    if padded(line, command_text(Command::PowerOn)) {
        Command::PowerOn
    } else if padded(line, command_text(Command::PowerOff)) {
        Command::PowerOff
    } else if padded(line, command_text(Command::RestoreModeOff)) {
        Command::RestoreModeOff
    } else if padded(line, command_text(Command::RestoreModeOn)) {
        Command::RestoreModeOn
    } else if padded(line, command_text(Command::RestoreModeLastState)) {
        Command::RestoreModeLastState
    } else if padded(line, command_text(Command::Version)) {
        Command::Version
    } else if padded(line, command_text(Command::FwUpdate)) {
        Command::FwUpdate
    } else {
        Command::Unknown
    }
}

/// The command a line stands for, read the way the firmware reads it: the
/// line must be valid UTF-8, and with Unicode white space trimmed from both
/// ends it must be a command's name; anything else is `Unknown`.
pub open spec fn command_of_line(line: Seq<u8>) -> Command {
    if !valid_utf8(line) {
        Command::Unknown
    } else {
        let t = trim_chars(decode_utf8(line));
        if t == ascii_chars(command_text(Command::PowerOn)) {
            Command::PowerOn
        } else if t == ascii_chars(command_text(Command::PowerOff)) {
            Command::PowerOff
        } else if t == ascii_chars(command_text(Command::RestoreModeOff)) {
            Command::RestoreModeOff
        } else if t == ascii_chars(command_text(Command::RestoreModeOn)) {
            Command::RestoreModeOn
        } else if t == ascii_chars(command_text(Command::RestoreModeLastState)) {
            Command::RestoreModeLastState
        } else if t == ascii_chars(command_text(Command::Version)) {
            Command::Version
        } else if t == ascii_chars(command_text(Command::FwUpdate)) {
            Command::FwUpdate
        } else {
            Command::Unknown
        }
    }
}

/// Every command other than `Unknown` has a name of printable ASCII.
proof fn lemma_name_text(c: Command)
    requires
        c != Command::Unknown,
    ensures
        is_name_text(command_text(c)),
{
}

/// Reading a line byte by byte, as a name with white-space encodings around
/// it, gives the same command as decoding the line as UTF-8 and trimming it.
pub proof fn lemma_command_of_line(line: Seq<u8>)
    ensures
        padded_command(line) == command_of_line(line),
{
    lemma_name_text(Command::PowerOn);
    lemma_padded_iff_trimmed(line, command_text(Command::PowerOn));
    lemma_name_text(Command::PowerOff);
    lemma_padded_iff_trimmed(line, command_text(Command::PowerOff));
    lemma_name_text(Command::RestoreModeOff);
    lemma_padded_iff_trimmed(line, command_text(Command::RestoreModeOff));
    lemma_name_text(Command::RestoreModeOn);
    lemma_padded_iff_trimmed(line, command_text(Command::RestoreModeOn));
    lemma_name_text(Command::RestoreModeLastState);
    lemma_padded_iff_trimmed(line, command_text(Command::RestoreModeLastState));
    lemma_name_text(Command::Version);
    lemma_padded_iff_trimmed(line, command_text(Command::Version));
    lemma_name_text(Command::FwUpdate);
    lemma_padded_iff_trimmed(line, command_text(Command::FwUpdate));
}

/// A white-space encoding starts at `i`.
pub open spec fn ws_starts_at(line: Seq<u8>, i: int) -> bool {
    exists|k: int| 1 <= k <= 3 && i + k <= line.len() && ws_encoding(#[trigger] line.subrange(i, i + k))
}

/// A white-space encoding that starts at or after `lo` ends at `j`.
pub open spec fn ws_ends_at(line: Seq<u8>, lo: int, j: int) -> bool {
    exists|k: int| 1 <= k <= 3 && lo <= j - k && ws_encoding(#[trigger] line.subrange(j - k, j))
}

// ---------------------------------------------------------------------------
// Facts about white-space strings.

/// No white-space encoding is a proper prefix of another.
proof fn lemma_ws_prefix_free(x: Seq<u8>, y: Seq<u8>)
    requires
        ws_encoding(x),
        ws_encoding(y),
        x.len() <= y.len(),
        x == y.take(x.len() as int),
    ensures
        x == y,
{
    assert(x[0] == y[0]);
    if x.len() >= 2 {
        assert(x[1] == y[1]);
    }
    if x.len() < y.len() {
        assert(false);
    }
    assert(x =~= y);
}

/// No white-space encoding is a proper suffix of another.
proof fn lemma_ws_suffix_free(x: Seq<u8>, y: Seq<u8>)
    requires
        ws_encoding(x),
        ws_encoding(y),
        x.len() <= y.len(),
        x == y.skip(y.len() - x.len()),
    ensures
        x == y,
{
    assert(x[x.len() - 1] == y[y.len() - 1]);
    if x.len() >= 2 {
        assert(x[x.len() - 2] == y[y.len() - 2]);
    }
    if x.len() < y.len() {
        assert(false);
    }
    assert(x =~= y);
}

/// A white-space encoding put in front of a white-space string.
pub(crate) proof fn lemma_ws_cons(e: Seq<u8>, s: Seq<u8>)
    requires
        ws_encoding(e),
        ws_string(s),
    ensures
        ws_string(e + s),
{
    let t = e + s;
    assert(t.take(e.len() as int) =~= e);
    assert(t.skip(e.len() as int) =~= s);
}

/// A nonempty white-space string starts with an encoding.
pub(crate) proof fn lemma_ws_uncons(s: Seq<u8>) -> (k: int)
    requires
        ws_string(s),
        s.len() > 0,
    ensures
        1 <= k <= 3,
        k <= s.len(),
        ws_encoding(s.take(k)),
        ws_string(s.skip(k)),
{
    if s.len() >= 1 && ws_encoding(s.take(1)) && ws_string(s.skip(1)) {
        1
    } else if s.len() >= 2 && ws_encoding(s.take(2)) && ws_string(s.skip(2)) {
        2
    } else {
        3
    }
}

/// A white-space encoding put after a white-space string.
proof fn lemma_ws_snoc(s: Seq<u8>, e: Seq<u8>)
    requires
        ws_string(s),
        ws_encoding(e),
    ensures
        ws_string(s + e),
    decreases s.len(),
{
    if s.len() == 0 {
        lemma_ws_cons(e, s);
        assert(s + e =~= e + s);
    } else {
        let k = lemma_ws_uncons(s);
        lemma_ws_snoc(s.skip(k), e);
        lemma_ws_cons(s.take(k), s.skip(k) + e);
        assert(s.take(k) + (s.skip(k) + e) =~= s + e);
    }
}

/// A nonempty white-space string ends with an encoding.
proof fn lemma_ws_unsnoc(s: Seq<u8>) -> (k: int)
    requires
        ws_string(s),
        s.len() > 0,
    ensures
        1 <= k <= 3,
        k <= s.len(),
        ws_encoding(s.skip(s.len() - k)),
        ws_string(s.take(s.len() - k)),
    decreases s.len(),
{
    let k0 = lemma_ws_uncons(s);
    let rest = s.skip(k0);
    if rest.len() == 0 {
        assert(s.skip(s.len() - k0) =~= s.take(k0));
        assert(s.take(s.len() - k0) =~= Seq::<u8>::empty());
        k0
    } else {
        let k = lemma_ws_unsnoc(rest);
        lemma_ws_cons(s.take(k0), rest.take(rest.len() - k));
        assert(s.take(k0) + rest.take(rest.len() - k) =~= s.take(s.len() - k));
        assert(rest.skip(rest.len() - k) =~= s.skip(s.len() - k));
        k
    }
}

/// Left cancellation: removing a white-space prefix from a white-space string
/// leaves a white-space string.
proof fn lemma_ws_cancel_left(x: Seq<u8>, y: Seq<u8>)
    requires
        ws_string(x),
        ws_string(x + y),
    ensures
        ws_string(y),
    decreases x.len(),
{
    if x.len() == 0 {
        assert(x + y =~= y);
    } else {
        let k = lemma_ws_uncons(x);
        let k2 = lemma_ws_uncons(x + y);
        let e = x.take(k);
        let e2 = (x + y).take(k2);
        if k <= k2 {
            assert(e =~= e2.take(k));
            lemma_ws_prefix_free(e, e2);
        } else {
            assert(e2 =~= e.take(k2));
            lemma_ws_prefix_free(e2, e);
        }
        assert((x + y).skip(k) =~= x.skip(k) + y);
        lemma_ws_cancel_left(x.skip(k), y);
    }
}

/// Right cancellation: removing a white-space suffix from a white-space string
/// leaves a white-space string.
proof fn lemma_ws_cancel_right(x: Seq<u8>, y: Seq<u8>)
    requires
        ws_string(y),
        ws_string(x + y),
    ensures
        ws_string(x),
    decreases y.len(),
{
    if y.len() == 0 {
        assert(x + y =~= x);
    } else {
        let t = x + y;
        let k = lemma_ws_unsnoc(y);
        let k2 = lemma_ws_unsnoc(t);
        let e = y.skip(y.len() - k);
        let e2 = t.skip(t.len() - k2);
        if k <= k2 {
            assert(e =~= e2.skip(e2.len() - k));
            lemma_ws_suffix_free(e, e2);
        } else {
            assert(e2 =~= e.skip(e.len() - k2));
            lemma_ws_suffix_free(e2, e);
        }
        assert(t.take(t.len() - k) =~= x + y.take(y.len() - k));
        lemma_ws_cancel_right(x, y.take(y.len() - k));
    }
}

// ---------------------------------------------------------------------------
// Scanning.

/// Length of the white-space encoding that starts at `i`, or 0.
fn ws_len_at(line: &[u8], i: usize) -> (n: usize)
    requires
        i <= line@.len(),
    ensures
        n <= 3,
        i + n <= line@.len(),
        n > 0 ==> ws_encoding(line@.subrange(i as int, i + n)),
        n == 0 ==> !ws_starts_at(line@, i as int),
{
    let len = line.len();
    let mut n: usize = 0;
    if i < len {
        let b0 = line[i];
        if (0x09 <= b0 && b0 <= 0x0D) || b0 == 0x20 {
            n = 1;
        } else if b0 == 0xC2 && len - i > 1 {
            let b1 = line[i + 1];
            if b1 == 0x85 || b1 == 0xA0 {
                n = 2;
            }
        } else if (b0 == 0xE1 || b0 == 0xE2 || b0 == 0xE3) && len - i > 2 {
            let b1 = line[i + 1];
            let b2 = line[i + 2];
            if (b0 == 0xE1 && b1 == 0x9A && b2 == 0x80) || (b0 == 0xE2 && b1 == 0x80 && ((0x80
                <= b2 && b2 <= 0x8A) || b2 == 0xA8 || b2 == 0xA9 || b2 == 0xAF)) || (b0 == 0xE2
                && b1 == 0x81 && b2 == 0x9F) || (b0 == 0xE3 && b1 == 0x80 && b2 == 0x80) {
                n = 3;
            }
        }
    }
    proof {
        if n == 0 {
            assert forall|k: int|
                1 <= k <= 3 && i + k <= line@.len() implies !ws_encoding(
                #[trigger] line@.subrange(i as int, i + k),
            ) by {
                let e = line@.subrange(i as int, i + k);
                assert(e[0] == line@[i as int]);
                if k >= 2 {
                    assert(e[1] == line@[i + 1]);
                }
                if k >= 3 {
                    assert(e[2] == line@[i + 2]);
                }
            }
        }
    }
    n
}

/// Length of the white-space encoding that ends at `j` and starts at or after
/// `lo`, or 0.
fn ws_len_before(line: &[u8], lo: usize, j: usize) -> (n: usize)
    requires
        lo <= j <= line@.len(),
    ensures
        n <= 3,
        lo + n <= j,
        n > 0 ==> ws_encoding(line@.subrange(j - n, j as int)),
        n == 0 ==> !ws_ends_at(line@, lo as int, j as int),
{
    let mut n: usize = 0;
    if j > lo {
        let c1 = line[j - 1];
        if (0x09 <= c1 && c1 <= 0x0D) || c1 == 0x20 {
            n = 1;
        } else if j - lo >= 2 && line[j - 2] == 0xC2 && (c1 == 0x85 || c1 == 0xA0) {
            n = 2;
        } else if j - lo >= 3 {
            let b0 = line[j - 3];
            let b1 = line[j - 2];
            let b2 = c1;
            if (b0 == 0xE1 && b1 == 0x9A && b2 == 0x80) || (b0 == 0xE2 && b1 == 0x80 && ((0x80
                <= b2 && b2 <= 0x8A) || b2 == 0xA8 || b2 == 0xA9 || b2 == 0xAF)) || (b0 == 0xE2
                && b1 == 0x81 && b2 == 0x9F) || (b0 == 0xE3 && b1 == 0x80 && b2 == 0x80) {
                n = 3;
            }
        }
    }
    proof {
        if n == 0 {
            assert forall|k: int|
                1 <= k <= 3 && lo <= j - k implies !ws_encoding(
                #[trigger] line@.subrange(j - k, j as int),
            ) by {
                let e = line@.subrange(j - k, j as int);
                assert(e[k - 1] == line@[j - 1]);
                if k >= 2 {
                    assert(e[k - 2] == line@[j - 2]);
                }
                if k >= 3 {
                    assert(e[0] == line@[j - 3]);
                }
            }
        }
    }
    n
}

/// Skip the white space at the start of `line`.
fn skip_leading_ws(line: &[u8]) -> (i: usize)
    ensures
        i <= line@.len(),
        ws_string(line@.subrange(0, i as int)),
        !ws_starts_at(line@, i as int),
{
    let len = line.len();
    let mut i: usize = 0;
    assert(line@.subrange(0, 0) =~= Seq::<u8>::empty());
    loop
        invariant
            len == line@.len(),
            i <= line@.len(),
            ws_string(line@.subrange(0, i as int)),
        decreases line@.len() - i,
    {
        let n = ws_len_at(line, i);
        if n == 0 {
            return i;
        }
        proof {
            lemma_ws_snoc(line@.subrange(0, i as int), line@.subrange(i as int, i + n));
            assert(line@.subrange(0, i as int) + line@.subrange(i as int, i + n) =~= line@.subrange(
                0,
                i + n,
            ));
        }
        i = i + n;
    }
}

/// Skip the white space at the end of `line`, not going below `lo`.
fn skip_trailing_ws(line: &[u8], lo: usize) -> (j: usize)
    requires
        lo <= line@.len(),
    ensures
        lo <= j <= line@.len(),
        ws_string(line@.subrange(j as int, line@.len() as int)),
        !ws_ends_at(line@, lo as int, j as int),
{
    let mut j: usize = line.len();
    assert(line@.subrange(j as int, j as int) =~= Seq::<u8>::empty());
    loop
        invariant
            lo <= j <= line@.len(),
            ws_string(line@.subrange(j as int, line@.len() as int)),
        decreases j,
    {
        let n = ws_len_before(line, lo, j);
        if n == 0 {
            return j;
        }
        proof {
            lemma_ws_cons(
                line@.subrange(j - n, j as int),
                line@.subrange(j as int, line@.len() as int),
            );
            assert(line@.subrange(j - n, j as int) + line@.subrange(j as int, line@.len() as int)
                =~= line@.subrange(j - n, line@.len() as int));
        }
        j = j - n;
    }
}

/// The bytes `line[i..j]` are exactly `text`.
fn slice_is(line: &[u8], i: usize, j: usize, text: &[u8]) -> (r: bool)
    requires
        i <= j <= line@.len(),
    ensures
        r == (line@.subrange(i as int, j as int) == text@),
{
    if j - i != text.len() {
        return false;
    }
    let mut k: usize = 0;
    while k < text.len()
        invariant
            k <= text@.len(),
            j - i == text@.len(),
            j <= line@.len(),
            forall|m: int| 0 <= m < k ==> line@[i + m] == text@[m],
        decreases text@.len() - k,
    {
        if line[i + k] != text[k] {
            assert(line@.subrange(i as int, j as int)[k as int] != text@[k as int]);
            return false;
        }
        k = k + 1;
    }
    assert(line@.subrange(i as int, j as int) =~= text@);
    true
}

/// Where the white space around a command name ends: the greedy scans stop
/// exactly at the name.
proof fn lemma_padded_scan(line: Seq<u8>, text: Seq<u8>, i: int, j: int)
    requires
        padded(line, text),
        text.len() > 0,
        0x21 <= text[0] <= 0x7E,
        0x21 <= text[text.len() - 1] <= 0x7E,
        0 <= i <= line.len(),
        ws_string(line.subrange(0, i)),
        !ws_starts_at(line, i),
        i <= j <= line.len(),
        ws_string(line.subrange(j, line.len() as int)),
        !ws_ends_at(line, i, j),
    ensures
        line.subrange(i, j) == text,
{
    let (a, b) = choose|a: int, b: int|
        0 <= a <= b <= line.len() && ws_string(#[trigger] line.subrange(0, a))
            && line.subrange(a, b) == text && ws_string(
            #[trigger] line.subrange(b, line.len() as int),
        );
    assert(line[a] == text[0]);
    assert(line[b - 1] == text[text.len() - 1]);
    // The leading scan stops at `a`.
    if i < a {
        assert(line.subrange(0, i) + line.subrange(i, a) =~= line.subrange(0, a));
        lemma_ws_cancel_left(line.subrange(0, i), line.subrange(i, a));
        let k = lemma_ws_uncons(line.subrange(i, a));
        assert(line.subrange(i, a).take(k) =~= line.subrange(i, i + k));
        assert(false);
    } else if i > a {
        assert(line.subrange(0, a) + line.subrange(a, i) =~= line.subrange(0, i));
        lemma_ws_cancel_left(line.subrange(0, a), line.subrange(a, i));
        let k = lemma_ws_uncons(line.subrange(a, i));
        assert(line.subrange(a, i).take(k) =~= line.subrange(a, a + k));
        assert(line.subrange(a, a + k)[0] == line[a]);
        assert(false);
    }
    // The trailing scan stops at `b`.
    let n = line.len() as int;
    if j < b {
        assert(line.subrange(j, b) + line.subrange(b, n) =~= line.subrange(j, n));
        lemma_ws_cancel_right(line.subrange(j, b), line.subrange(b, n));
        let k = lemma_ws_unsnoc(line.subrange(j, b));
        let e = line.subrange(j, b).skip(b - j - k);
        assert(e =~= line.subrange(b - k, b));
        assert(e[k - 1] == line[b - 1]);
        assert(false);
    } else if j > b {
        assert(line.subrange(b, j) + line.subrange(j, n) =~= line.subrange(b, n));
        lemma_ws_cancel_right(line.subrange(b, j), line.subrange(j, n));
        let k = lemma_ws_unsnoc(line.subrange(b, j));
        assert(line.subrange(b, j).skip(j - b - k) =~= line.subrange(j - k, j));
        assert(false);
    }
}

/// Command names are printable ASCII at both ends.
proof fn lemma_text_ends(c: Command)
    requires
        c != Command::Unknown,
    ensures
        command_text(c).len() > 0,
        0x21 <= command_text(c)[0] <= 0x7E,
        0x21 <= command_text(c)[command_text(c).len() - 1] <= 0x7E,
{
}

/// Parse a line into a command.
pub fn parse_line(line: &[u8]) -> (r: Command)
    ensures
        r == command_of_line(line@),
{
    let i = skip_leading_ws(line);
    let j = skip_trailing_ws(line, i);
    proof {
        assert(line@.subrange(0, i as int) == line@.subrange(0, i as int));
        assert forall|c: Command|
            c != Command::Unknown && #[trigger] padded(line@, command_text(c)) implies line@.subrange(
            i as int,
            j as int,
        ) == command_text(c) by {
            lemma_text_ends(c);
            lemma_padded_scan(line@, command_text(c), i as int, j as int);
        }
    }
    let pwr_on: [u8; 6] = [0x50u8, 0x57u8, 0x52u8, 0x5Fu8, 0x4Fu8, 0x4Eu8];
    let pwr_off: [u8; 7] = [0x50u8, 0x57u8, 0x52u8, 0x5Fu8, 0x4Fu8, 0x46u8, 0x46u8];
    let rm_off: [u8; 16] = [
        0x52u8, 0x45u8, 0x53u8, 0x54u8, 0x4Fu8, 0x52u8, 0x45u8, 0x5Fu8, 0x4Du8, 0x4Fu8, 0x44u8, 0x45u8, 0x5Fu8, 0x4Fu8, 0x46u8,
        0x46u8,
    ];
    let rm_on: [u8; 15] = [
        0x52u8, 0x45u8, 0x53u8, 0x54u8, 0x4Fu8, 0x52u8, 0x45u8, 0x5Fu8, 0x4Du8, 0x4Fu8, 0x44u8, 0x45u8, 0x5Fu8, 0x4Fu8, 0x4Eu8,
    ];
    let rm_last: [u8; 23] = [
        0x52u8, 0x45u8, 0x53u8, 0x54u8, 0x4Fu8, 0x52u8, 0x45u8, 0x5Fu8, 0x4Du8, 0x4Fu8, 0x44u8, 0x45u8, 0x5Fu8, 0x4Cu8, 0x41u8,
        0x53u8, 0x54u8, 0x5Fu8, 0x53u8, 0x54u8, 0x41u8, 0x54u8, 0x45u8,
    ];
    let version: [u8; 7] = [0x56u8, 0x45u8, 0x52u8, 0x53u8, 0x49u8, 0x4Fu8, 0x4Eu8];
    let fw_update: [u8; 9] = [0x46u8, 0x57u8, 0x5Fu8, 0x55u8, 0x50u8, 0x44u8, 0x41u8, 0x54u8, 0x45u8];
    assert(pwr_on@ =~= command_text(Command::PowerOn));
    assert(pwr_off@ =~= command_text(Command::PowerOff));
    assert(rm_off@ =~= command_text(Command::RestoreModeOff));
    assert(rm_on@ =~= command_text(Command::RestoreModeOn));
    assert(rm_last@ =~= command_text(Command::RestoreModeLastState));
    assert(version@ =~= command_text(Command::Version));
    assert(fw_update@ =~= command_text(Command::FwUpdate));
    let r = if slice_is(line, i, j, pwr_on.as_slice()) {
        Command::PowerOn
    } else if slice_is(line, i, j, pwr_off.as_slice()) {
        Command::PowerOff
    } else if slice_is(line, i, j, rm_off.as_slice()) {
        Command::RestoreModeOff
    } else if slice_is(line, i, j, rm_on.as_slice()) {
        Command::RestoreModeOn
    } else if slice_is(line, i, j, rm_last.as_slice()) {
        Command::RestoreModeLastState
    } else if slice_is(line, i, j, version.as_slice()) {
        Command::Version
    } else if slice_is(line, i, j, fw_update.as_slice()) {
        Command::FwUpdate
    } else {
        Command::Unknown
    };
    proof {
        if r != Command::Unknown {
            assert(line@.subrange(i as int, j as int) == command_text(r));
            assert(ws_string(line@.subrange(0, i as int)));
            assert(ws_string(line@.subrange(j as int, line@.len() as int)));
            assert(padded(line@, command_text(r)));
        }
        assert(r == padded_command(line@));
        lemma_command_of_line(line@);
    }
    r
}

/// A byte ends the line being assembled: it is a newline, or it fills the
/// line buffer (`pending_len` bytes were already buffered, `p` bytes of the
/// chunk precede it).
pub open spec fn ends_line(pending_len: int, chunk: Seq<u8>, p: int) -> bool {
    chunk[p] == 0x0A || pending_len + p + 1 >= RX_LINE_SIZE - 1
}

/// UART line assembly and command parsing.
pub struct UartHandler {
    line: Vec<u8>,
    line_pos: usize,
}

impl UartHandler {
    /// The line buffer is allocated and never full between calls.
    pub closed spec fn wf(&self) -> bool {
        &&& self.line@.len() == RX_LINE_SIZE
        &&& self.line_pos < RX_LINE_SIZE - 1
    }

    /// The bytes of the current, not yet complete line.
    pub closed spec fn pending(&self) -> Seq<u8> {
        self.line@.take(self.line_pos as int)
    }

    /// Create a handler with an empty line.
    pub fn new() -> (r: Self)
        ensures
            r.wf(),
            r.pending() == Seq::<u8>::empty(),
    {
        let r = Self { line: vec![0u8; RX_LINE_SIZE], line_pos: 0 };
        assert(r.line@.take(0) =~= Seq::<u8>::empty());
        r
    }

    /// Process bytes taken from the receive buffer. Bytes are consumed up to
    /// and including the one that ends the current line (see [`ends_line`]);
    /// that line is then parsed and returned as a command. Bytes after it are
    /// not consumed and stay in the receive buffer for the next call.
    /// Returns the number of bytes consumed and the completed command, if any.
    pub fn feed(&mut self, chunk: &[u8]) -> (r: (usize, Option<Command>))
        requires
            old(self).wf(),
        ensures
            final(self).wf(),
            r.0 <= chunk@.len(),
            match r.1 {
                Some(c) => {
                    &&& r.0 >= 1
                    &&& ends_line(old(self).pending().len() as int, chunk@, r.0 - 1)
                    &&& forall|q: int|
                        0 <= q < r.0 - 1 ==> !ends_line(
                            old(self).pending().len() as int,
                            chunk@,
                            q,
                        )
                    &&& c == command_of_line(old(self).pending() + chunk@.take(r.0 as int))
                    &&& final(self).pending() == Seq::<u8>::empty()
                },
                None => {
                    &&& r.0 == chunk@.len()
                    &&& forall|q: int|
                        0 <= q < chunk@.len() ==> !ends_line(
                            old(self).pending().len() as int,
                            chunk@,
                            q,
                        )
                    &&& final(self).pending() == old(self).pending() + chunk@
                },
            },
    {
        let ghost start = self.pending();
        let mut used: usize = 0;
        while used < chunk.len()
            invariant
                self.wf(),
                start == old(self).pending(),
                used <= chunk@.len(),
                self.line_pos == start.len() + used,
                self.pending() == start + chunk@.take(used as int),
                forall|q: int| 0 <= q < used ==> !ends_line(start.len() as int, chunk@, q),
            decreases chunk@.len() - used,
        {
            let ch = chunk[used];
            let ghost before = self.line@.take(self.line_pos as int);
            assert(chunk@.take(used + 1) =~= chunk@.take(used as int).push(ch));
            used = used + 1;
            if self.line_pos < RX_LINE_SIZE - 1 {
                self.line.set(self.line_pos, ch);
                self.line_pos = self.line_pos + 1;
            }
            assert(self.line@.take(self.line_pos as int) =~= before.push(ch));
            assert(self.pending() =~= start + chunk@.take(used as int));
            if ch == 0x0A || self.line_pos >= RX_LINE_SIZE - 1 {
                let cmd = self.parse_command();
                self.line_pos = 0;
                assert(self.pending() =~= Seq::<u8>::empty());
                return (used, Some(cmd));
            }
        }
        assert(chunk@.take(used as int) =~= chunk@);
        (used, None)
    }

    /// Parse the accumulated line into a command.
    fn parse_command(&self) -> (r: Command)
        requires
            self.line_pos <= self.line@.len(),
        ensures
            r == command_of_line(self.pending()),
    {
        let line = &self.line.as_slice()[0..self.line_pos];
        assert(line@ =~= self.pending());
        parse_line(line)
    }

    /// Drop a partially received line, so that raw binary data read next
    /// cannot mix with it.
    pub fn discard_partial_line(&mut self)
        requires
            old(self).wf(),
        ensures
            final(self).wf(),
            final(self).pending() == Seq::<u8>::empty(),
    {
        self.line_pos = 0;
        assert(self.line@.take(0) =~= Seq::<u8>::empty());
    }
}

/// The version response: `EXTVER;<name>;<version>\n`.
pub fn version_message() -> (r: Vec<u8>)
    ensures
        r@ == "EXTVER;".spec_bytes() + NAME.spec_bytes() + ";".spec_bytes()
            + VERSION.spec_bytes() + "\n".spec_bytes(),
{
    let mut tx: Vec<u8> = Vec::new();
    uart_write_str(&mut tx, "EXTVER;");
    uart_write_str(&mut tx, NAME);
    uart_write_str(&mut tx, ";");
    uart_write_str(&mut tx, VERSION);
    uart_write_str(&mut tx, "\n");
    tx
}

} // verus!
