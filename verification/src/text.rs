use vstd::prelude::*;

verus! {

/// The decimal digit character for `d`.
pub open spec fn dec_digit(d: int) -> char {
    if d == 0 {
        '0'
    } else if d == 1 {
        '1'
    } else if d == 2 {
        '2'
    } else if d == 3 {
        '3'
    } else if d == 4 {
        '4'
    } else if d == 5 {
        '5'
    } else if d == 6 {
        '6'
    } else if d == 7 {
        '7'
    } else if d == 8 {
        '8'
    } else {
        '9'
    }
}

/// The decimal rendering of a non-negative integer, no leading zeros,
/// a single zero for 0.
pub open spec fn dec_seq(n: int) -> Seq<char>
    recommends
        n >= 0,
    decreases n,
{
    if n < 10 {
        seq![dec_digit(n)]
    } else {
        dec_seq(n / 10).push(dec_digit(n % 10))
    }
}

/// The lower-case hexadecimal digit character for `d`.
pub open spec fn hex_digit(d: int) -> char {
    if d < 10 {
        dec_digit(d)
    } else if d == 10 {
        'a'
    } else if d == 11 {
        'b'
    } else if d == 12 {
        'c'
    } else if d == 13 {
        'd'
    } else if d == 14 {
        'e'
    } else {
        'f'
    }
}

/// The lower-case hexadecimal rendering of a non-negative integer, no
/// leading zeros, a single zero for 0.
pub open spec fn hex_seq(n: int) -> Seq<char>
    recommends
        n >= 0,
    decreases n,
{
    if n < 16 {
        seq![hex_digit(n)]
    } else {
        hex_seq(n / 16).push(hex_digit(n % 16))
    }
}

/// A hexadecimal rendering with the customary prefix.
pub open spec fn hex_prefixed(n: int) -> Seq<char> {
    "0x"@ + hex_seq(n)
}

/// `n` spaces.
pub open spec fn spaces(n: int) -> Seq<char>
    decreases n,
{
    if n <= 0 {
        Seq::empty()
    } else {
        spaces(n - 1).push(' ')
    }
}

/// `s` padded on the right with spaces to at least `w` characters.
pub open spec fn pad_to(s: Seq<char>, w: int) -> Seq<char> {
    s + spaces(w - s.len())
}

/// A tick count in nanoseconds rendered as seconds with three decimals,
/// rounded to the nearest millisecond, half a millisecond rounding up.
pub open spec fn secs_millis(nanos: u64) -> Seq<char> {
    let ms = (nanos + 500_000) / 1_000_000;
    dec_seq(ms / 1000) + "."@ + seq![
        dec_digit(ms / 100 % 10),
        dec_digit(ms / 10 % 10),
        dec_digit(ms % 10),
    ]
}

/// The one-character string for a decimal digit.
fn dec_digit_str(d: u64) -> (r: &'static str)
    requires
        d < 10,
    ensures
        r@ == seq![dec_digit(d as int)],
{
    proof {
        reveal_strlit("0");
        reveal_strlit("1");
        reveal_strlit("2");
        reveal_strlit("3");
        reveal_strlit("4");
        reveal_strlit("5");
        reveal_strlit("6");
        reveal_strlit("7");
        reveal_strlit("8");
        reveal_strlit("9");
    }
    match d {
        0 => "0",
        1 => "1",
        2 => "2",
        3 => "3",
        4 => "4",
        5 => "5",
        6 => "6",
        7 => "7",
        8 => "8",
        _ => "9",
    }
}

/// The one-character string for a hexadecimal digit.
fn hex_digit_str(d: u64) -> (r: &'static str)
    requires
        d < 16,
    ensures
        r@ == seq![hex_digit(d as int)],
{
    if d < 10 {
        dec_digit_str(d)
    } else {
        proof {
            reveal_strlit("a");
            reveal_strlit("b");
            reveal_strlit("c");
            reveal_strlit("d");
            reveal_strlit("e");
            reveal_strlit("f");
        }
        match d {
            10 => "a",
            11 => "b",
            12 => "c",
            13 => "d",
            14 => "e",
            _ => "f",
        }
    }
}

/// The decimal rendering of `n`.
pub fn dec_string(n: u64) -> (r: String)
    ensures
        r@ == dec_seq(n as int),
    decreases n,
{
    if n < 10 {
        String::from_str(dec_digit_str(n))
    } else {
        let mut s = dec_string(n / 10);
        s.append(dec_digit_str(n % 10));
        s
    }
}

/// The prefixed lower-case hexadecimal rendering of `n`.
pub fn hex_prefixed_string(n: u64) -> (r: String)
    ensures
        r@ == hex_prefixed(n as int),
{
    let mut s = String::from_str("0x");
    append_hex(&mut s, n);
    s
}

fn append_hex(s: &mut String, n: u64)
    ensures
        final(s)@ == old(s)@ + hex_seq(n as int),
    decreases n,
{
    if n < 16 {
        s.append(hex_digit_str(n));
    } else {
        append_hex(s, n / 16);
        s.append(hex_digit_str(n % 16));
    }
}

/// `n` spaces.
pub fn spaces_string(n: u32) -> (r: String)
    ensures
        r@ == spaces(n as int),
{
    let mut s = String::new();
    let mut k: u32 = 0;
    while k < n
        invariant
            k <= n,
            s@ == spaces(k as int),
        decreases n - k,
    {
        proof {
            reveal_strlit(" ");
        }
        s.append(" ");
        proof {
            assert(s@ =~= spaces(k as int + 1));
        }
        k = k + 1;
    }
    s
}

/// Appends `s` padded on the right with spaces to at least `w` characters.
pub fn append_padded(out: &mut String, s: &str, w: u32)
    ensures
        final(out)@ == old(out)@ + pad_to(s@, w as int),
{
    out.append(s);
    let n = s.unicode_len();
    if n < w as usize {
        let pad = spaces_string(w - n as u32);
        out.append(pad.as_str());
        proof {
            assert(out@ =~= old(out)@ + pad_to(s@, w as int));
        }
    } else {
        proof {
            assert(spaces(w as int - s@.len() as int) =~= Seq::<char>::empty());
            assert(out@ =~= old(out)@ + pad_to(s@, w as int));
        }
    }
}

/// The seconds-with-three-decimals rendering of a nanosecond tick count.
pub fn secs_string(nanos: u64) -> (r: String)
    ensures
        r@ == secs_millis(nanos),
{
    let q = nanos / 1_000_000;
    let rem = nanos % 1_000_000;
    let ms = if rem >= 500_000 {
        q + 1
    } else {
        q
    };
    proof {
        assert(q <= nanos);
        assert(ms == (nanos + 500_000) / 1_000_000) by (nonlinear_arith)
            requires
                q == nanos / 1_000_000,
                rem == nanos % 1_000_000,
                ms == (if rem >= 500_000 {
                    q + 1int
                } else {
                    q as int
                }),
        ;
    }
    let mut s = dec_string(ms / 1000);
    s.append(".");
    s.append(dec_digit_str(ms / 100 % 10));
    s.append(dec_digit_str(ms / 10 % 10));
    s.append(dec_digit_str(ms % 10));
    proof {
        assert(s@ =~= secs_millis(nanos));
    }
    s
}

} // verus!
