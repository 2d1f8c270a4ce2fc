//! The report sent over the UART when the firmware panics.
//!
//! Format: `PANIC;DC extension firmware panic occurred[ at <file>:<line>]\n`,
//! so the main JetKVM system learns that the extension crashed before it
//! resets. The bytes are queued here; the panic handler shifts them out.

use vstd::prelude::*;
use vstd::string::StringSliceAdditionalSpecFns;

verus! {

/// Decimal digits of `n`, most significant first, without leading zeros.
pub open spec fn decimal(n: nat) -> Seq<u8>
    decreases n,
{
    if n < 10 {
        seq![(0x30u8 + n) as u8]
    } else {
        decimal(n / 10).push((0x30u8 + n % 10) as u8)
    }
}

/// Queue the bytes of `s` for transmission.
pub fn uart_write_str(tx: &mut Vec<u8>, s: &str)
    ensures
        final(tx)@ == old(tx)@ + s.spec_bytes(),
{
    let bytes = s.as_bytes();
    let mut i: usize = 0;
    while i < bytes.len()
        invariant
            i <= bytes@.len(),
            bytes@ == s.spec_bytes(),
            tx@ == old(tx)@ + bytes@.take(i as int),
        decreases bytes@.len() - i,
    {
        tx.push(bytes[i]);
        assert(bytes@.take(i + 1) =~= bytes@.take(i as int).push(bytes@[i as int]));
        i = i + 1;
    }
    assert(bytes@.take(bytes@.len() as int) =~= bytes@);
}

/// Queue the decimal representation of `n`.
pub fn uart_write_u32(tx: &mut Vec<u8>, n: u32)
    ensures
        final(tx)@ == old(tx)@ + decimal(n as nat),
{
    // Digits least significant first, as the remainders come out.
    let mut digits: Vec<u8> = Vec::new();
    let mut m = n;
    let ghost mut done: Seq<u8> = Seq::empty();
    loop
        invariant_except_break
            decimal(n as nat) == decimal(m as nat) + done,
        invariant
            digits@.len() == done.len(),
            forall|k: int|
                0 <= k < digits@.len() ==> #[trigger] digits@[k] == done[done.len() - 1 - k],
        ensures
            decimal(n as nat) == done,
        decreases m,
    {
        let d = (m % 10) as u8;
        proof {
            let old_done = done;
            done = seq![(0x30u8 + m % 10) as u8] + old_done;
            if m >= 10 {
                assert(decimal(m as nat) == decimal((m / 10) as nat).push((0x30u8 + m % 10) as u8));
                assert(decimal((m / 10) as nat).push((0x30u8 + m % 10) as u8) + old_done
                    =~= decimal((m / 10) as nat) + done);
            } else {
                assert(decimal(m as nat) + old_done =~= done);
            }
        }
        digits.push(0x30u8 + d);
        m = m / 10;
        if m == 0 {
            break ;
        }
    }
    assert(decimal(n as nat) =~= done);
    let mut k = digits.len();
    while k > 0
        invariant
            k <= digits@.len(),
            digits@.len() == done.len(),
            forall|q: int| 0 <= q < digits@.len() ==> #[trigger] digits@[q] == done[done.len() - 1 - q],
            tx@ == old(tx)@ + done.take(done.len() - k),
        decreases k,
    {
        k = k - 1;
        tx.push(digits[k]);
        assert(done.take(done.len() - k) =~= done.take(done.len() - (k + 1)).push(done[done.len() - 1 - k]));
    }
    assert(done.take(done.len() as int) =~= done);
}

/// The report sent on a panic, with the panic's location when known.
pub open spec fn report_text(location: Option<(Seq<u8>, nat)>) -> Seq<u8> {
    "PANIC;DC extension firmware panic occurred"@.map_values(|c: char| c as u8) + match location {
        Some((file, line)) => " at "@.map_values(|c: char| c as u8) + file + seq![0x3Au8] + decimal(line),
        None => Seq::empty(),
    } + seq![0x0Au8]
}

/// Build the panic report for a panic at `location` (file, line), if known.
pub fn panic_report(location: Option<(&str, u32)>) -> (r: Vec<u8>)
    ensures
        r@ == report_text(
            match location {
                Some((file, line)) => Some((file.spec_bytes(), line as nat)),
                None => None,
            },
        ),
{
    let mut tx: Vec<u8> = Vec::new();
    uart_write_str(&mut tx, "PANIC;DC extension firmware panic occurred");
    let ghost head = tx@;
    match location {
        Some((file, line)) => {
            uart_write_str(&mut tx, " at ");
            uart_write_str(&mut tx, file);
            uart_write_str(&mut tx, ":");
            uart_write_u32(&mut tx, line);
        },
        None => {},
    }
    uart_write_str(&mut tx, "\n");
    proof {
        reveal_strlit("PANIC;DC extension firmware panic occurred");
        reveal_strlit(" at ");
        reveal_strlit(":");
        reveal_strlit("\n");
        broadcast use vstd::string::is_ascii_spec_bytes;

        assert(vstd::string::is_ascii("PANIC;DC extension firmware panic occurred"));
        assert(vstd::string::is_ascii(" at "));
        assert(vstd::string::is_ascii(":"));
        assert(vstd::string::is_ascii("\n"));
        assert(":".spec_bytes() =~= seq![0x3Au8]);
        assert("\n".spec_bytes() =~= seq![0x0Au8]);
        assert("PANIC;DC extension firmware panic occurred".spec_bytes()
            =~= "PANIC;DC extension firmware panic occurred"@.map_values(|c: char| c as u8));
        assert(" at ".spec_bytes() =~= " at "@.map_values(|c: char| c as u8));
        match location {
            Some((file, line)) => {
                assert(tx@ =~= report_text(Some((file.spec_bytes(), line as nat))));
            },
            None => {
                assert(tx@ =~= report_text(None));
            },
        }
    }
    tx
}

/// `n` divided by ten, `k` times.
pub open spec fn div10_pow(n: nat, k: nat) -> nat
    decreases k,
{
    if k == 0 {
        n
    } else {
        div10_pow(n, (k - 1) as nat) / 10
    }
}

/// Dividing by ten `k` times is dividing once, then `k - 1` times.
proof fn lemma_div10_pow_shift(n: nat, k: nat)
    requires
        k > 0,
    ensures
        div10_pow(n, k) == div10_pow(n / 10, (k - 1) as nat),
    decreases k,
{
    if k > 1 {
        lemma_div10_pow_shift(n, (k - 1) as nat);
        assert(div10_pow(n / 10, (k - 1) as nat) == div10_pow(n / 10, (k - 2) as nat) / 10);
    } else {
        assert(div10_pow(n, 0) == n);
        assert(div10_pow(n / 10, 0) == n / 10);
    }
}

/// `10` to the power `d`.
pub open spec fn pow10(d: nat) -> nat
    decreases d,
{
    if d == 0 {
        1
    } else {
        10 * pow10((d - 1) as nat)
    }
}

/// A number below `10^d` has at most `d` digits.
proof fn lemma_decimal_len_le(n: nat, d: nat)
    requires
        d >= 1,
        n < pow10(d),
    ensures
        decimal(n).len() <= d,
    decreases n,
{
    if n >= 10 {
        if d == 1 {
            assert(pow10(1) == 10 * pow10(0));
        }
        assert(n / 10 < pow10((d - 1) as nat));
        lemma_decimal_len_le(n / 10, (d - 1) as nat);
    }
}

/// Digit `k` of `decimal(n)`, counted from the least significant one.
proof fn lemma_decimal_digit(n: nat, k: nat)
    requires
        k < decimal(n).len(),
    ensures
        decimal(n)[decimal(n).len() - 1 - k] == (0x30 + div10_pow(n, k) % 10) as u8,
    decreases n,
{
    if k > 0 {
        lemma_div10_pow_shift(n, k);
        lemma_decimal_digit(n / 10, (k - 1) as nat);
    }
}

/// Number of decimal digits of `n`.
fn decimal_len(n: u32) -> (r: usize)
    ensures
        r == decimal(n as nat).len(),
{
    proof {
        reveal_with_fuel(pow10, 11);
        assert(pow10(10) == 10_000_000_000);
        lemma_decimal_len_le(n as nat, 10);
    }
    let mut m = n;
    let mut count: usize = 1;
    while m >= 10
        invariant
            1 <= count <= 10,
            decimal(n as nat).len() == decimal(m as nat).len() + count - 1,
            decimal(n as nat).len() <= 10,
        decreases m,
    {
        proof {
            lemma_decimal_len_bound(m as nat);
        }
        m = m / 10;
        count = count + 1;
    }
    count
}

/// A `u32` has at most ten decimal digits.
proof fn lemma_decimal_len_bound(n: nat)
    ensures
        decimal(n).len() >= 1,
        n < 10 ==> decimal(n).len() == 1,
        n >= 10 ==> decimal(n).len() == decimal(n / 10).len() + 1,
{
}

/// Digit `k` of the decimal form of `n`, counted from the least significant.
fn decimal_digit(n: u32, k: usize) -> (r: u8)
    requires
        k < decimal(n as nat).len(),
    ensures
        r == decimal(n as nat)[decimal(n as nat).len() - 1 - k],
{
    let mut m = n;
    let mut t: usize = 0;
    while t < k
        invariant
            t <= k,
            m == div10_pow(n as nat, t as nat),
        decreases k - t,
    {
        m = m / 10;
        t = t + 1;
    }
    proof {
        lemma_decimal_digit(n as nat, k as nat);
    }
    0x30u8 + (m % 10) as u8
}

/// Byte `i` of the panic report for a panic at `location`, or `None` past its
/// end. The panic handler sends the report byte by byte this way, without
/// needing the heap.
pub fn panic_report_byte(location: Option<(&str, u32)>, i: usize) -> (r: Option<u8>)
    ensures
        ({
            let t = report_text(
                match location {
                    Some((file, line)) => Some((file.spec_bytes(), line as nat)),
                    None => None,
                },
            );
            r == if i < t.len() {
                Some(t[i as int])
            } else {
                None
            }
        }),
{
    let prefix = "PANIC;DC extension firmware panic occurred".as_bytes();
    let at = " at ".as_bytes();
    proof {
        reveal_strlit("PANIC;DC extension firmware panic occurred");
        reveal_strlit(" at ");
        broadcast use vstd::string::is_ascii_spec_bytes;

        assert(vstd::string::is_ascii("PANIC;DC extension firmware panic occurred"));
        assert(vstd::string::is_ascii(" at "));
        assert(prefix@ =~= "PANIC;DC extension firmware panic occurred"@.map_values(
            |c: char| c as u8,
        ));
        assert(at@ =~= " at "@.map_values(|c: char| c as u8));
    }
    let ghost tail: Seq<u8> = match location {
        Some((file, line)) => at@ + file.spec_bytes() + seq![0x3Au8] + decimal(line as nat),
        None => Seq::empty(),
    };
    let ghost t = prefix@ + tail + seq![0x0Au8];
    assert(t == report_text(
        match location {
            Some((file, line)) => Some((file.spec_bytes(), line as nat)),
            None => None,
        },
    ));
    if i < prefix.len() {
        return Some(prefix[i]);
    }
    let mut k = i - prefix.len();
    match location {
        Some((file, line)) => {
            if k < at.len() {
                return Some(at[k]);
            }
            k = k - at.len();
            let f = file.as_bytes();
            if k < f.len() {
                return Some(f[k]);
            }
            k = k - f.len();
            if k == 0 {
                return Some(0x3Au8);
            }
            k = k - 1;
            let nd = decimal_len(line);
            if k < nd {
                return Some(decimal_digit(line, nd - 1 - k));
            }
            k = k - nd;
        },
        None => {},
    }
    if k == 0 {
        Some(0x0Au8)
    } else {
        None
    }
}

/// The number a string of decimal digits spells.
pub open spec fn digits_value(d: Seq<u8>) -> int
    decreases d.len(),
{
    if d.len() == 0 {
        0
    } else {
        digits_value(d.drop_last()) * 10 + (d.last() - 0x30)
    }
}

/// `decimal(n)` is the decimal numeral of `n`: ASCII digits, no leading zero,
/// spelling `n`.
pub proof fn lemma_decimal_numeral(n: nat)
    ensures
        decimal(n).len() >= 1,
        forall|k: int| 0 <= k < decimal(n).len() ==> 0x30 <= #[trigger] decimal(n)[k] <= 0x39,
        decimal(n)[0] == 0x30 ==> n == 0,
        digits_value(decimal(n)) == n,
    decreases n,
{
    if n >= 10 {
        lemma_decimal_numeral(n / 10);
        let d = decimal(n);
        assert(d.drop_last() =~= decimal(n / 10));
        assert forall|k: int| 0 <= k < d.len() implies 0x30 <= #[trigger] d[k] <= 0x39 by {
            if k < d.len() - 1 {
                assert(d[k] == decimal(n / 10)[k]);
            }
        }
        assert(d[0] == decimal(n / 10)[0]);
        assert(d.last() == 0x30 + n % 10);
        assert(digits_value(d) == digits_value(d.drop_last()) * 10 + (d.last() - 0x30));
        assert(digits_value(d.drop_last()) == n / 10);
        assert((n / 10) * 10 + n % 10 == n);
    } else {
        let d = decimal(n);
        assert(d.drop_last() =~= Seq::<u8>::empty());
        assert(d.last() == 0x30 + n);
        assert(digits_value(d) == digits_value(d.drop_last()) * 10 + (d.last() - 0x30));
        assert(digits_value(d.drop_last()) == 0);
    }
}

/// What the panic report says: the fixed message, then for a known location
/// " at ", the whole file name, ':' and the line number in decimal, then a
/// newline.
pub proof fn lemma_report_contents(file: Seq<u8>, line: nat)
    ensures
        report_text(None) == "PANIC;DC extension firmware panic occurred\n".spec_bytes(),
        ({
            let r = report_text(Some((file, line)));
            let p = report_text(None).len() - 1;
            let f = p + 4;
            let e = f + file.len();
            &&& r.len() == e + 1 + decimal(line).len() + 1
            &&& r.subrange(0, p) == report_text(None).subrange(0, p)
            &&& r.subrange(p, f) == " at ".spec_bytes()
            &&& r.subrange(f, e) == file
            &&& r[e] == 0x3A
            &&& r.subrange(e + 1, r.len() - 1) == decimal(line)
            &&& digits_value(r.subrange(e + 1, r.len() - 1)) == line
            &&& r[r.len() - 1] == 0x0A
        }),
{
    reveal_strlit("PANIC;DC extension firmware panic occurred\n");
    reveal_strlit("PANIC;DC extension firmware panic occurred");
    reveal_strlit(" at ");
    broadcast use vstd::string::is_ascii_spec_bytes;

    assert(vstd::string::is_ascii("PANIC;DC extension firmware panic occurred\n"));
    assert(vstd::string::is_ascii(" at "));
    lemma_decimal_numeral(line);
    let head = "PANIC;DC extension firmware panic occurred"@.map_values(|c: char| c as u8);
    let at = " at "@.map_values(|c: char| c as u8);
    assert(" at ".spec_bytes() =~= at);
    assert(report_text(None) =~= head + seq![0x0Au8]);
    assert(report_text(None) =~= "PANIC;DC extension firmware panic occurred\n".spec_bytes());
    let r = report_text(Some((file, line)));
    assert(r =~= head + (at + file + seq![0x3Au8] + decimal(line)) + seq![0x0Au8]);
    let p = head.len() as int;
    let f = p + 4;
    let e = f + file.len();
    assert(r.subrange(0, p) =~= head);
    assert(report_text(None).subrange(0, p) =~= head);
    assert(r.subrange(p, f) =~= at);
    assert(r.subrange(f, e) =~= file);
    assert(r.subrange(e + 1, r.len() - 1) =~= decimal(line));
}

} // verus!
