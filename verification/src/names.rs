use vstd::prelude::*;
use vstd::string::StringExecFns;

verus! {

/// The lowercase hex digit for a nibble value.
pub open spec fn spec_hex_digit(d: u32) -> char {
    if d == 0 {
        '0'
    } else if d == 1 {
        '1'
    } else if d == 2 {
        '2'
    } else if d == 3 {
        '3'
    } else if d == 4 {
        '4'
    } else if d == 5 {
        '5'
    } else if d == 6 {
        '6'
    } else if d == 7 {
        '7'
    } else if d == 8 {
        '8'
    } else if d == 9 {
        '9'
    } else if d == 10 {
        'a'
    } else if d == 11 {
        'b'
    } else if d == 12 {
        'c'
    } else if d == 13 {
        'd'
    } else if d == 14 {
        'e'
    } else {
        'f'
    }
}

/// Eight lowercase hex digits of a 32-bit value, most significant first.
pub open spec fn spec_hex8(v: u32) -> Seq<char> {
    Seq::new(8, |i: int| spec_hex_digit((v >> ((4 * (7 - i)) as u32)) & 0xf))
}

/// Sixteen lowercase hex digits of a 64-bit value, most significant first.
pub open spec fn spec_hex16(v: u64) -> Seq<char> {
    Seq::new(16, |i: int| spec_hex_digit((((v >> ((4 * (15 - i)) as u64)) & 0xf) as u32)))
}

/// The one-character string for a nibble value.
fn hex_digit_str(d: u32) -> (r: &'static str)
    requires
        d < 16,
    ensures
        r@ =~= seq![spec_hex_digit(d)],
{
    proof {
        reveal_strlit("0");
        reveal_strlit("1");
        reveal_strlit("2");
        reveal_strlit("3");
        reveal_strlit("4");
        reveal_strlit("5");
        reveal_strlit("6");
        reveal_strlit("7");
        reveal_strlit("8");
        reveal_strlit("9");
        reveal_strlit("a");
        reveal_strlit("b");
        reveal_strlit("c");
        reveal_strlit("d");
        reveal_strlit("e");
        reveal_strlit("f");
    }
    match d {
        0 => "0",
        1 => "1",
        2 => "2",
        3 => "3",
        4 => "4",
        5 => "5",
        6 => "6",
        7 => "7",
        8 => "8",
        9 => "9",
        10 => "a",
        11 => "b",
        12 => "c",
        13 => "d",
        14 => "e",
        _ => "f",
    }
}

/// The symbol name for a promoted pointer: the caller's prefix followed by
/// the target address as eight lowercase hex digits.
pub fn pointer_name(prefix: &str, pointer: u32) -> (r: String)
    ensures
        r@ == prefix@ + spec_hex8(pointer),
{
    let mut s: String = prefix.to_owned();
    let mut k: u32 = 0;
    while k < 8
        invariant
            0 <= k <= 8,
            s@ == prefix@ + spec_hex8(pointer).take(k as int),
        decreases 8 - k,
    {
        let shift: u32 = 4 * (7 - k);
        let d: u32 = (pointer >> shift) & 0xf;
        proof {
            assert((pointer >> shift) & 0xf < 16) by (bit_vector);
        }
        s.append(hex_digit_str(d));
        proof {
            let h = spec_hex8(pointer);
            assert(h[k as int] == spec_hex_digit(d));
            assert(h.take(k + 1) =~= h.take(k as int).push(h[k as int]));
            assert(s@ =~= prefix@ + h.take(k + 1));
        }
        k = k + 1;
    }
    proof {
        assert(spec_hex8(pointer).take(8) =~= spec_hex8(pointer));
    }
    s
}

/// A 64-bit value as sixteen lowercase hex digits.
pub fn hex16_string(v: u64) -> (r: String)
    ensures
        r@ == spec_hex16(v),
{
    let mut s: String = String::new();
    let mut k: u32 = 0;
    while k < 16
        invariant
            0 <= k <= 16,
            s@ == spec_hex16(v).take(k as int),
        decreases 16 - k,
    {
        let shift: u64 = (4 * (15 - k)) as u64;
        let d: u32 = ((v >> shift) & 0xf) as u32;
        proof {
            assert((v >> shift) & 0xf < 16) by (bit_vector);
        }
        s.append(hex_digit_str(d));
        proof {
            let h = spec_hex16(v);
            assert(h[k as int] == spec_hex_digit(d));
            assert(h.take(k + 1) =~= h.take(k as int).push(h[k as int]));
            assert(s@ =~= h.take(k + 1));
        }
        k = k + 1;
    }
    proof {
        assert(spec_hex16(v).take(16) =~= spec_hex16(v));
    }
    s
}

} // verus!
