//! Decimal numbers and paths, as bytes.

use vstd::prelude::*;

verus! {

/// Whether two byte strings are the same.
pub fn same_bytes(a: &[u8], b: &[u8]) -> (r: bool)
    ensures
        r == (a@ == b@),
{
    if a.len() != b.len() {
        return false;
    }
    let mut i: usize = 0;
    while i < a.len()
        invariant
            a@.len() == b@.len(),
            i <= a@.len(),
            forall|k: int| 0 <= k < i ==> a@[k] == b@[k],
        decreases a@.len() - i,
    {
        if a[i] != b[i] {
            assert(a@[i as int] != b@[i as int]);
            return false;
        }
        i = i + 1;
    }
    assert(a@ =~= b@);
    true
}

/// Whether two texts are the same.
pub fn same_text(a: &str, b: &str) -> (r: bool)
    ensures
        r == (a@ == b@),
{
    proof {
        vstd::utf8::encode_utf8_decode_utf8(a@);
        vstd::utf8::encode_utf8_decode_utf8(b@);
    }
    same_bytes(a.as_bytes(), b.as_bytes())
}

/// A number written in decimal.
pub open spec fn decimal(n: nat) -> Seq<u8>
    decreases n,
{
    if n < 10 {
        seq![(48 + n) as u8]
    } else {
        decimal(n / 10).push((48 + n % 10) as u8)
    }
}

/// The number that decimal digits stand for.
pub open spec fn decimal_value(digits: Seq<u8>) -> int
    decreases digits.len(),
{
    if digits.len() == 0 {
        0
    } else {
        decimal_value(digits.drop_last()) * 10 + (digits.last() - 48)
    }
}

/// A number is read back from what it is written as.
pub proof fn lemma_decimal_value(n: nat)
    ensures
        decimal_value(decimal(n)) == n,
        decimal(n).len() >= 1,
    decreases n,
{
    if n < 10 {
        assert(decimal(n).drop_last() =~= Seq::<u8>::empty());
        assert(decimal_value(Seq::<u8>::empty()) == 0);
    } else {
        lemma_decimal_value(n / 10);
        assert(decimal(n).drop_last() =~= decimal(n / 10));
    }
}

/// Different numbers are written differently.
pub proof fn law_decimal_tells_numbers_apart(m: nat, n: nat)
    requires
        decimal(m) == decimal(n),
    ensures
        m == n,
{
    lemma_decimal_value(m);
    lemma_decimal_value(n);
}

/// Writes a number in decimal.
pub fn to_decimal(n: u64) -> (digits: Vec<u8>)
    ensures
        digits@ == decimal(n as nat),
    decreases n,
{
    if n < 10 {
        let mut digits: Vec<u8> = Vec::new();
        digits.push(48u8 + n as u8);
        assert(digits@ =~= decimal(n as nat));
        digits
    } else {
        let mut digits: Vec<u8> = to_decimal(n / 10);
        digits.push(48u8 + (n % 10) as u8);
        digits
    }
}

/// A relative path behind another path, with one separator between them.
pub open spec fn joined(base: Seq<u8>, name: Seq<u8>) -> Seq<u8> {
    if base.len() == 0 || base.last() == 47 {
        base + name
    } else {
        base.push(47) + name
    }
}

/// Puts a relative path behind another path.
pub fn join(base: &[u8], name: &[u8]) -> (path: Vec<u8>)
    ensures
        path@ == joined(base@, name@),
{
    let mut path: Vec<u8> = vstd::slice::slice_to_vec(base);
    if base.len() > 0 && base[base.len() - 1] != 47 {
        path.push(47);
    }
    path.extend_from_slice(name);
    assert(path@ =~= joined(base@, name@));
    path
}

/// Paths that differ in what is put behind them are different.
pub proof fn lemma_joined_tells_names_apart(base: Seq<u8>, m: Seq<u8>, n: Seq<u8>)
    requires
        joined(base, m) == joined(base, n),
    ensures
        m == n,
{
    let front = if base.len() == 0 || base.last() == 47 {
        base
    } else {
        base.push(47)
    };
    assert(joined(base, m) =~= front + m);
    assert(joined(base, n) =~= front + n);
    assert((front + m).subrange(front.len() as int, (front + m).len() as int) =~= m);
    assert((front + n).subrange(front.len() as int, (front + n).len() as int) =~= n);
}

/// Where a byte occurs last; -1 where it does not.
pub open spec fn last_at(s: Seq<u8>, byte: u8) -> int
    decreases s.len(),
{
    if s.len() == 0 {
        -1
    } else if s.last() == byte {
        s.len() - 1
    } else {
        last_at(s.drop_last(), byte)
    }
}

/// Where a byte occurs last.
fn find_last(s: &[u8], len: usize, byte: u8) -> (r: Option<usize>)
    requires
        len <= s@.len(),
    ensures
        match r {
            Some(i) => i < len && i == last_at(s@.take(len as int), byte),
            None => last_at(s@.take(len as int), byte) == -1,
        },
{
    let mut n: usize = len;
    while n > 0
        invariant
            n <= len <= s@.len(),
            last_at(s@.take(len as int), byte) == last_at(s@.take(n as int), byte),
        decreases n,
    {
        assert(s@.take(n as int).drop_last() =~= s@.take(n - 1));
        if s[n - 1] == byte {
            return Some(n - 1);
        }
        n = n - 1;
    }
    None
}

/// The name that a path ends with: its last part between slashes, where empty
/// parts and single dots do not count.
pub open spec fn last_part(path: Seq<u8>) -> Seq<u8>
    decreases path.len(),
{
    if path.len() == 0 {
        Seq::empty()
    } else {
        let cut = last_at(path, 47);
        let part = path.subrange(cut + 1, path.len() as int);
        if part.len() > 0 && part != seq![46u8] {
            part
        } else if 0 <= cut < path.len() {
            last_part(path.take(cut))
        } else {
            Seq::empty()
        }
    }
}

/// The name that a path ends with, without its extension: what is behind the last
/// dot in it, unless the name begins with that dot. A path that ends in two dots
/// has none.
pub open spec fn stem_of(path: Seq<u8>) -> Seq<u8> {
    let name = last_part(path);
    let dot = last_at(name, 46);
    if name == seq![46u8, 46u8] {
        Seq::empty()
    } else if dot > 0 {
        name.take(dot)
    } else {
        name
    }
}

proof fn lemma_last_at(s: Seq<u8>, byte: u8)
    ensures
        -1 <= last_at(s, byte) < s.len(),
    decreases s.len(),
{
    if s.len() > 0 && s.last() != byte {
        lemma_last_at(s.drop_last(), byte);
    }
}

/// The name that a path ends with, without its extension.
pub fn file_stem(path: &[u8]) -> (stem: Vec<u8>)
    ensures
        stem@ == stem_of(path@),
{
    let dot: [u8; 1] = [46];
    let dots: [u8; 2] = [46, 46];
    assert(dot@ =~= seq![46u8]);
    assert(dots@ =~= seq![46u8, 46u8]);
    let mut len: usize = path.len();
    let mut start: usize = len;
    assert(path@.take(len as int) =~= path@);
    while len > 0
        invariant_except_break
            start == len,
            last_part(path@) == last_part(path@.take(len as int)),
        invariant
            len <= path@.len(),
            dot@ == seq![46u8],
        ensures
            start <= len,
            last_part(path@) == path@.subrange(start as int, len as int),
        decreases len,
    {
        let ghost rest = path@.take(len as int);
        proof {
            lemma_last_at(rest, 47);
        }
        let cut: Option<usize> = find_last(path, len, 47);
        let from: usize = match cut {
            Some(i) => i + 1,
            None => 0,
        };
        let part: &[u8] = vstd::slice::slice_subrange(path, from, len);
        assert(part@ =~= rest.subrange(last_at(rest, 47) + 1, rest.len() as int));
        if part.len() > 0 && !same_bytes(part, vstd::array::array_as_slice(&dot)) {
            start = from;
            break ;
        }
        match cut {
            Some(i) => {
                assert(rest.take(i as int) =~= path@.take(i as int));
                len = i;
                start = i;
            },
            None => {
                len = 0;
                start = 0;
                assert(path@.take(0) =~= Seq::empty());
            },
        }
    }
    let name: &[u8] = vstd::slice::slice_subrange(path, start, len);
    let ghost whole = last_part(path@);
    assert(name@ =~= whole);
    if same_bytes(name, vstd::array::array_as_slice(&dots)) {
        let none: Vec<u8> = Vec::new();
        assert(none@ =~= Seq::empty());
        return none;
    }
    proof {
        assert(name@.take(name@.len() as int) =~= name@);
        lemma_last_at(name@, 46);
    }
    match find_last(name, name.len(), 46) {
        Some(i) => if i > 0 {
            assert(name@.take(i as int) =~= name@.subrange(0, i as int));
            vstd::slice::slice_to_vec(vstd::slice::slice_subrange(name, 0, i))
        } else {
            vstd::slice::slice_to_vec(name)
        },
        None => vstd::slice::slice_to_vec(name),
    }
}

} // verus!
