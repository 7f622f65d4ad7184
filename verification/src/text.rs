//! Verified text rendering: decimal and hexadecimal encodings, a
//! 64-bit content-hash fold, and the category sanitizer.

use vstd::prelude::*;

use crate::trusted::push_char;

verus! {

/// The decimal digit character for `d` < 10.
pub open spec fn dec_digit(d: nat) -> char {
    if d == 0 {
        '0'
    } else if d == 1 {
        '1'
    } else if d == 2 {
        '2'
    } else if d == 3 {
        '3'
    } else if d == 4 {
        '4'
    } else if d == 5 {
        '5'
    } else if d == 6 {
        '6'
    } else if d == 7 {
        '7'
    } else if d == 8 {
        '8'
    } else {
        '9'
    }
}

/// The decimal rendering of `n`, most significant digit first, no
/// leading zeros (and `"0"` for zero).
pub open spec fn dec_str_of(n: nat) -> Seq<char>
    decreases n,
{
    if n < 10 {
        seq![dec_digit(n)]
    } else {
        dec_str_of(n / 10).push(dec_digit(n % 10))
    }
}

/// The hexadecimal digit character for `d` < 16, lower case.
pub open spec fn hex_digit(d: nat) -> char {
    if d < 10 {
        dec_digit(d)
    } else if d == 10 {
        'a'
    } else if d == 11 {
        'b'
    } else if d == 12 {
        'c'
    } else if d == 13 {
        'd'
    } else if d == 14 {
        'e'
    } else {
        'f'
    }
}

/// The last `k` hexadecimal digits of `n`, most significant first,
/// zero-padded.
pub open spec fn hex_str_of(n: nat, k: nat) -> Seq<char>
    decreases k,
{
    if k == 0 {
        Seq::empty()
    } else {
        hex_str_of(n / 16, (k - 1) as nat).push(hex_digit(n % 16))
    }
}

/// One step of the 64-bit FNV-1a fold.
pub open spec fn fnv64_step(h: u64, c: u64) -> u64 {
    ((((h ^ c) as nat) * 1099511628211nat) % 0x10000000000000000nat) as u64
}

/// The 64-bit FNV-1a fold of a character sequence over the running
/// state `h`.
pub open spec fn fnv64(s: Seq<char>, h: u64) -> u64
    decreases s.len(),
{
    if s.len() == 0 {
        h
    } else {
        fnv64(s.drop_first(), fnv64_step(h, s[0] as u64))
    }
}

/// The FNV-1a offset basis.
pub open spec fn fnv64_basis() -> u64 {
    14695981039346656037u64
}

/// The category sanitizer: spaces become `/`, periods and commas are
/// dropped, everything else is kept.
pub open spec fn sanitized(s: Seq<char>) -> Seq<char>
    decreases s.len(),
{
    if s.len() == 0 {
        Seq::empty()
    } else {
        let c = if s[0] == ' ' {
            '/'
        } else {
            s[0]
        };
        let rest = sanitized(s.drop_first());
        if c == '.' || c == ',' {
            rest
        } else {
            seq![c] + rest
        }
    }
}

/// Renders a digit below 10.
fn dec_digit_char(d: u64) -> (c: char)
    requires
        d < 10,
    ensures
        c == dec_digit(d as nat),
{
    if d == 0 {
        '0'
    } else if d == 1 {
        '1'
    } else if d == 2 {
        '2'
    } else if d == 3 {
        '3'
    } else if d == 4 {
        '4'
    } else if d == 5 {
        '5'
    } else if d == 6 {
        '6'
    } else if d == 7 {
        '7'
    } else if d == 8 {
        '8'
    } else {
        '9'
    }
}

/// Renders a digit below 16, lower case.
fn hex_digit_char(d: u64) -> (c: char)
    requires
        d < 16,
    ensures
        c == hex_digit(d as nat),
{
    if d < 10 {
        dec_digit_char(d)
    } else if d == 10 {
        'a'
    } else if d == 11 {
        'b'
    } else if d == 12 {
        'c'
    } else if d == 13 {
        'd'
    } else if d == 14 {
        'e'
    } else {
        'f'
    }
}

/// Builds a string from the reverse of a digit list.
fn string_of_reversed(tail: Vec<char>) -> (s: String)
    ensures
        s@ == tail@.reverse(),
{
    let mut s = String::new();
    let mut i: usize = tail.len();
    while i > 0
        invariant
            i <= tail@.len(),
            s@.len() == tail@.len() - i,
            forall|k: int| 0 <= k < s@.len() ==> s@[k] == tail@[tail@.len() - 1 - k],
        decreases i,
    {
        i = i - 1;
        push_char(&mut s, tail[i]);
    }
    proof {
        assert(s@ =~= tail@.reverse());
    }
    s
}

/// The decimal rendering of a 64-bit number.
pub fn u64_to_dec_string(n: u64) -> (r: String)
    ensures
        r@ == dec_str_of(n as nat),
{
    let mut m = n;
    let mut tail: Vec<char> = Vec::new();
    loop
        invariant_except_break
            tail@.len() > 0 ==> dec_str_of(n as nat) == dec_str_of(m as nat).add(
                tail@.reverse(),
            ) && m > 0,
            tail@.len() == 0 ==> m == n,
        ensures
            dec_str_of(n as nat) == tail@.reverse(),
        decreases m,
    {
        let d = m % 10;
        let ghost pre_tail = tail@;
        let ghost pre_m = m;
        tail.push(dec_digit_char(d));
        m = m / 10;
        proof {
            assert(tail@.reverse() =~= seq![dec_digit(pre_m as nat % 10)] + pre_tail.reverse());
            if pre_m < 10 {
                assert(dec_str_of(pre_m as nat) == seq![dec_digit(pre_m as nat)]);
            } else {
                assert(dec_str_of(pre_m as nat) == dec_str_of(pre_m as nat / 10).push(
                    dec_digit(pre_m as nat % 10),
                ));
            }
            if pre_tail.len() == 0 {
                if pre_m < 10 {
                    assert(dec_str_of(n as nat) =~= tail@.reverse());
                } else {
                    assert(dec_str_of(n as nat) =~= dec_str_of(m as nat) + tail@.reverse());
                }
            } else {
                if pre_m < 10 {
                    assert(dec_str_of(n as nat) =~= tail@.reverse());
                } else {
                    assert(dec_str_of(pre_m as nat) + pre_tail.reverse() =~= dec_str_of(
                        m as nat,
                    ) + tail@.reverse());
                }
            }
        }
        if m == 0 {
            break ;
        }
    }
    string_of_reversed(tail)
}

/// The 16-digit zero-padded hexadecimal rendering of a 64-bit number.
pub fn u64_to_hex16_string(n: u64) -> (r: String)
    ensures
        r@ == hex_str_of(n as nat, 16),
{
    let mut m = n;
    let mut tail: Vec<char> = Vec::new();
    let mut k: usize = 0;
    proof {
        assert(hex_str_of(n as nat, 16) =~= hex_str_of(n as nat, 16).add(tail@.reverse()));
    }
    while k < 16
        invariant
            k <= 16,
            tail@.len() == k,
            hex_str_of(n as nat, 16) == hex_str_of(m as nat, (16 - k) as nat).add(
                tail@.reverse(),
            ),
        decreases 16 - k,
    {
        let d = m % 16;
        let ghost pre_tail = tail@;
        let ghost pre_m = m;
        let ghost pre_k = k as int;
        tail.push(hex_digit_char(d));
        m = m / 16;
        k = k + 1;
        proof {
            assert(tail@.reverse() =~= seq![hex_digit(pre_m as nat % 16)] + pre_tail.reverse());
            assert(hex_str_of(pre_m as nat, (16 - pre_k) as nat) == hex_str_of(
                pre_m as nat / 16,
                (16 - pre_k - 1) as nat,
            ).push(hex_digit(pre_m as nat % 16)));
            assert(hex_str_of(pre_m as nat, (16 - pre_k) as nat) + pre_tail.reverse()
                =~= hex_str_of(m as nat, (16 - pre_k - 1) as nat) + tail@.reverse());
        }
    }
    proof {
        assert(hex_str_of(m as nat, 0) == Seq::<char>::empty());
        assert(Seq::<char>::empty() + tail@.reverse() =~= tail@.reverse());
    }
    string_of_reversed(tail)
}

/// Folds the 64-bit FNV-1a step over the characters of a string.
pub fn fnv64_fold(s: &str, h0: u64) -> (h: u64)
    ensures
        h == fnv64(s@, h0),
{
    let len = s.unicode_len();
    let mut h = h0;
    let mut i: usize = 0;
    proof {
        assert(s@.skip(0) =~= s@);
    }
    while i < len
        invariant
            i <= len,
            len == s@.len(),
            fnv64(s@, h0) == fnv64(s@.skip(i as int), h),
        decreases len - i,
    {
        let c = s.get_char(i);
        let x: u64 = h ^ (c as u64);
        let wide: u128 = (x as u128) * 1099511628211u128;
        let next: u64 = (wide % 0x10000000000000000u128) as u64;
        proof {
            assert(s@.skip(i as int)[0] == s@[i as int]);
            assert(s@.skip(i as int).drop_first() =~= s@.skip(i + 1));
            assert(next == fnv64_step(h, s@[i as int] as u64));
            assert(fnv64(s@.skip(i as int), h) == fnv64(s@.skip(i + 1), next));
        }
        h = next;
        i = i + 1;
    }
    proof {
        assert(s@.skip(len as int) =~= Seq::<char>::empty());
    }
    h
}

/// Sanitizes a category text: spaces become `/`, periods and commas
/// are dropped.
pub fn sanitize_category(s: &str) -> (r: String)
    ensures
        r@ == sanitized(s@),
{
    let len = s.unicode_len();
    let mut r = String::new();
    let mut i: usize = 0;
    proof {
        assert(s@.skip(0) =~= s@);
        assert(r@ + sanitized(s@) =~= sanitized(s@));
    }
    while i < len
        invariant
            i <= len,
            len == s@.len(),
            sanitized(s@) == r@ + sanitized(s@.skip(i as int)),
        decreases len - i,
    {
        let c0 = s.get_char(i);
        let c = if c0 == ' ' {
            '/'
        } else {
            c0
        };
        proof {
            assert(s@.skip(i as int)[0] == s@[i as int]);
            assert(s@.skip(i as int).drop_first() =~= s@.skip(i + 1));
        }
        if !(c == '.' || c == ',') {
            let ghost pre = r@;
            push_char(&mut r, c);
            proof {
                assert(pre + (seq![c] + sanitized(s@.skip(i + 1))) =~= r@ + sanitized(
                    s@.skip(i + 1),
                ));
            }
        }
        i = i + 1;
    }
    proof {
        assert(s@.skip(len as int) =~= Seq::<char>::empty());
        assert(r@ + Seq::<char>::empty() =~= r@);
    }
    r
}

} // verus!
