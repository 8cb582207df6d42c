//! Small verified text utilities: decimal numbers and the file-name logic
//! (last path segment, extension) that the cache uses to derive file ids.

use crate::foreign::push_char;
use vstd::prelude::*;

verus! {

/// Numeric value of a decimal digit; 10 for every other character.
pub open spec fn digit_val(c: char) -> nat {
    if c == '0' {
        0
    } else if c == '1' {
        1
    } else if c == '2' {
        2
    } else if c == '3' {
        3
    } else if c == '4' {
        4
    } else if c == '5' {
        5
    } else if c == '6' {
        6
    } else if c == '7' {
        7
    } else if c == '8' {
        8
    } else if c == '9' {
        9
    } else {
        10
    }
}

pub open spec fn is_digit(c: char) -> bool {
    digit_val(c) < 10
}

pub open spec fn all_digits(s: Seq<char>) -> bool {
    forall|i: int| 0 <= i < s.len() ==> is_digit(#[trigger] s[i])
}

/// The number a digit string denotes, read most-significant first.
pub open spec fn dec_val(s: Seq<char>) -> nat
    decreases s.len(),
{
    if s.len() == 0 {
        0
    } else {
        dec_val(s.drop_last()) * 10 + digit_val(s.last())
    }
}

proof fn lemma_dec_val_take_succ(s: Seq<char>, i: int)
    requires
        0 <= i < s.len(),
    ensures
        dec_val(s.take(i + 1)) == dec_val(s.take(i)) * 10 + digit_val(s[i]),
{
    assert(s.take(i + 1).drop_last() =~= s.take(i));
    assert(s.take(i + 1).last() == s[i]);
}

proof fn lemma_dec_val_take_mono(s: Seq<char>, i: int, j: int)
    requires
        0 <= i <= j <= s.len(),
    ensures
        dec_val(s.take(i)) <= dec_val(s.take(j)),
    decreases j - i,
{
    if i < j {
        lemma_dec_val_take_succ(s, i);
        assert(dec_val(s.take(i)) <= dec_val(s.take(i)) * 10 + digit_val(s[i]));
        lemma_dec_val_take_mono(s, i + 1, j);
    }
}

fn digit_of(c: char) -> (r: u64)
    ensures
        r == digit_val(c),
{
    match c {
        '0' => 0,
        '1' => 1,
        '2' => 2,
        '3' => 3,
        '4' => 4,
        '5' => 5,
        '6' => 6,
        '7' => 7,
        '8' => 8,
        '9' => 9,
        _ => 10,
    }
}

/// Parses a string of decimal digits; `None` on an empty string, on any
/// non-digit character, and on a value that does not fit in a `u64`.
pub fn parse_dec_u64(s: &str) -> (r: Option<u64>)
    ensures
        r is Some <==> s@.len() > 0 && all_digits(s@) && dec_val(s@) <= u64::MAX,
        r matches Some(v) ==> v == dec_val(s@),
{
    let n = s.unicode_len();
    if n == 0 {
        return None;
    }
    let mut acc: u64 = 0;
    let mut i: usize = 0;
    while i < n
        invariant
            0 <= i <= n,
            n == s@.len(),
            all_digits(s@.take(i as int)),
            acc == dec_val(s@.take(i as int)),
        decreases n - i,
    {
        let c = s.get_char(i);
        let d = digit_of(c);
        if d >= 10 {
            assert(!is_digit(s@[i as int]));
            return None;
        }
        if acc > (u64::MAX - d) / 10 {
            proof {
                lemma_dec_val_take_succ(s@, i as int);
                assert(acc * 10 + d > u64::MAX) by (nonlinear_arith)
                    requires
                        acc > (u64::MAX - d) / 10,
                        d < 10,
                ;
                lemma_dec_val_take_mono(s@, i + 1, s@.len() as int);
                assert(s@.take(s@.len() as int) =~= s@);
            }
            return None;
        }
        proof {
            assert(acc * 10 + d <= u64::MAX) by (nonlinear_arith)
                requires
                    acc <= (u64::MAX - d) / 10,
                    d < 10,
            ;
            lemma_dec_val_take_succ(s@, i as int);
        }
        acc = acc * 10 + d;
        i = i + 1;
    }
    proof {
        assert(s@.take(n as int) =~= s@);
    }
    Some(acc)
}

/// The decimal rendering of a number, most-significant digit first.
pub open spec fn dec_str(n: nat) -> Seq<char>
    decreases n,
{
    if n < 10 {
        seq![digit_char(n)]
    } else {
        dec_str(n / 10).push(digit_char(n % 10))
    }
}

/// The digit character for a value below ten.
pub open spec fn digit_char(n: nat) -> char {
    if n == 0 {
        '0'
    } else if n == 1 {
        '1'
    } else if n == 2 {
        '2'
    } else if n == 3 {
        '3'
    } else if n == 4 {
        '4'
    } else if n == 5 {
        '5'
    } else if n == 6 {
        '6'
    } else if n == 7 {
        '7'
    } else if n == 8 {
        '8'
    } else {
        '9'
    }
}

fn digit_char_of(d: u8) -> (c: char)
    requires
        d < 10,
    ensures
        c == digit_char(d as nat),
{
    match d {
        0 => '0',
        1 => '1',
        2 => '2',
        3 => '3',
        4 => '4',
        5 => '5',
        6 => '6',
        7 => '7',
        8 => '8',
        _ => '9',
    }
}

/// Appends the decimal rendering of `n` to `out`.
pub fn push_dec_u32(n: u32, out: &mut String)
    ensures
        final(out)@ == old(out)@ + dec_str(n as nat),
    decreases n,
{
    if n >= 10 {
        push_dec_u32(n / 10, out);
    }
    let c = digit_char_of((n % 10) as u8);
    push_char(out, c);
    proof {
        if n < 10 {
            assert(old(out)@.push(c) =~= old(out)@ + seq![c]);
            assert(dec_str(n as nat) == seq![digit_char(n as nat)]);
            assert((n % 10) as nat == n as nat);
        } else {
            assert((old(out)@ + dec_str((n / 10) as nat)).push(c) =~= old(out)@ + dec_str(
                (n / 10) as nat,
            ).push(c));
            assert((n / 10) as nat == (n as nat) / 10 && (n % 10) as nat == (n as nat) % 10);
        }
    }
}

/// The decimal rendering of `n` as a fresh string.
pub fn u32_dec_string(n: u32) -> (r: String)
    ensures
        r@ == dec_str(n as nat),
{
    let mut out = String::new();
    push_dec_u32(n, &mut out);
    proof {
        assert(Seq::<char>::empty() + dec_str(n as nat) =~= dec_str(n as nat));
    }
    out
}

/// The part of `p` after its last `/`; empty when `p` ends in `/`.
pub open spec fn seg_of(p: Seq<char>) -> Seq<char>
    decreases p.len(),
{
    if p.len() == 0 {
        Seq::empty()
    } else if p.last() == '/' {
        Seq::empty()
    } else {
        seg_of(p.drop_last()).push(p.last())
    }
}

/// The part of `name` after its last `.`, or `None` when `name` holds no `.`.
pub open spec fn ext_rec(name: Seq<char>) -> Option<Seq<char>>
    decreases name.len(),
{
    if name.len() == 0 {
        None
    } else if name.last() == '.' {
        Some(Seq::empty())
    } else {
        match ext_rec(name.drop_last()) {
            Some(e) => Some(e.push(name.last())),
            None => None,
        }
    }
}

proof fn lemma_ext_rec_len(name: Seq<char>)
    ensures
        ext_rec(name) matches Some(e) ==> e.len() < name.len(),
    decreases name.len(),
{
    if name.len() > 0 && name.last() != '.' {
        lemma_ext_rec_len(name.drop_last());
    }
}

/// The extension of a file name, as `std::path::Path::extension` reads it:
/// the part after the last `.`, unless the only `.` leads the name.
pub open spec fn ext_of(name: Seq<char>) -> Option<Seq<char>> {
    match ext_rec(name) {
        Some(e) => if e.len() + 2 <= name.len() {
            Some(e)
        } else {
            None
        },
        None => None,
    }
}

/// A fresh identifier with the extension of the URL path's last segment kept,
/// so that consumers that dispatch on the extension still work.
pub open spec fn file_id_spec(fresh: Seq<char>, path: Seq<char>) -> Seq<char> {
    match ext_of(seg_of(path)) {
        Some(e) => fresh + seq!['.'] + e,
        None => fresh,
    }
}

fn last_segment(path: &str) -> (r: String)
    ensures
        r@ == seg_of(path@),
{
    let n = path.unicode_len();
    let mut seg = String::new();
    let mut i: usize = 0;
    while i < n
        invariant
            0 <= i <= n,
            n == path@.len(),
            seg@ == seg_of(path@.take(i as int)),
        decreases n - i,
    {
        let c = path.get_char(i);
        proof {
            assert(path@.take(i + 1).drop_last() =~= path@.take(i as int));
            assert(path@.take(i + 1).last() == path@[i as int]);
        }
        if c == '/' {
            seg = String::new();
        } else {
            push_char(&mut seg, c);
        }
        i = i + 1;
    }
    proof {
        assert(path@.take(n as int) =~= path@);
    }
    seg
}

fn extension_of(name: &str) -> (r: Option<String>)
    ensures
        r is Some <==> ext_of(name@) is Some,
        r matches Some(e) ==> Some(e@) == ext_of(name@),
{
    let n = name.unicode_len();
    let mut ext: Option<String> = None;
    let mut i: usize = 0;
    while i < n
        invariant
            0 <= i <= n,
            n == name@.len(),
            ext is Some <==> ext_rec(name@.take(i as int)) is Some,
            ext matches Some(e) ==> Some(e@) == ext_rec(name@.take(i as int)),
        decreases n - i,
    {
        let c = name.get_char(i);
        proof {
            assert(name@.take(i + 1).drop_last() =~= name@.take(i as int));
            assert(name@.take(i + 1).last() == name@[i as int]);
        }
        if c == '.' {
            ext = Some(String::new());
        } else {
            match &mut ext {
                Some(e) => {
                    push_char(e, c);
                },
                None => {},
            }
        }
        i = i + 1;
    }
    proof {
        assert(name@.take(n as int) =~= name@);
    }
    match ext {
        Some(e) => {
            proof {
                lemma_ext_rec_len(name@);
            }
            if e.unicode_len() < n - 1 {
                Some(e)
            } else {
                None
            }
        },
        None => None,
    }
}

/// Builds the file id for a fresh identifier and a URL path.
pub fn file_id_for(fresh: &str, path: &str) -> (r: String)
    ensures
        r@ == file_id_spec(fresh@, path@),
{
    let seg = last_segment(path);
    let mut out = fresh.to_owned();
    match extension_of(seg.as_str()) {
        Some(e) => {
            push_char(&mut out, '.');
            out.append(e.as_str());
            proof {
                assert(fresh@.push('.') + e@ =~= fresh@ + seq!['.'] + e@);
            }
        },
        None => {},
    }
    out
}

} // verus!
