//! Byte-level building blocks shared by every wire format: big-endian integers, fixed-size
//! fields and length-checked copies.
use vstd::prelude::*;
use vstd::slice::slice_subrange;

verus! {

/// `256` to the power `n`: one more than the largest number that fits in `n` bytes.
pub open spec fn pow256(n: nat) -> nat
    decreases n,
{
    if n == 0 {
        1
    } else {
        256 * pow256((n - 1) as nat)
    }
}

/// The `n` low-order base-256 digits of `x`, most significant first.
pub open spec fn be(x: nat, n: nat) -> Seq<u8>
    decreases n,
{
    if n == 0 {
        Seq::empty()
    } else {
        be(x / 256, (n - 1) as nat).push((x % 256) as u8)
    }
}

/// The number whose base-256 digits, most significant first, are `s`.
pub open spec fn from_be(s: Seq<u8>) -> nat
    decreases s.len(),
{
    if s.len() == 0 {
        0
    } else {
        from_be(s.drop_last()) * 256 + s.last() as nat
    }
}

/// The array that holds exactly the bytes `s`.
pub open spec fn array_of<const N: usize>(s: Seq<u8>) -> [u8; N] {
    choose|a: [u8; N]| a@ == s
}

/// The `N` bytes of `b` that start at `pos`.
pub open spec fn array_at<const N: usize>(b: Seq<u8>, pos: int) -> [u8; N] {
    array_of::<N>(b.subrange(pos, pos + N))
}

/// The big-endian 16-bit number of `b` that starts at `pos`.
pub open spec fn u16_at(b: Seq<u8>, pos: int) -> u16 {
    from_be(b.subrange(pos, pos + 2)) as u16
}

/// The big-endian 32-bit number of `b` that starts at `pos`.
pub open spec fn u32_at(b: Seq<u8>, pos: int) -> u32 {
    from_be(b.subrange(pos, pos + 4)) as u32
}

/// The big-endian 64-bit number of `b` that starts at `pos`.
pub open spec fn u64_at(b: Seq<u8>, pos: int) -> u64 {
    from_be(b.subrange(pos, pos + 8)) as u64
}

/// Whether the bytes of `b` from `pos` on begin with `prefix`.
pub open spec fn has_at(b: Seq<u8>, pos: int, prefix: Seq<u8>) -> bool {
    pos + prefix.len() <= b.len() && b.subrange(pos, pos + prefix.len()) == prefix
}

/// The bytes of a text in UTF-8.
pub open spec fn utf8(text: Seq<char>) -> Seq<u8> {
    vstd::utf8::encode_utf8(text)
}

pub proof fn lemma_be_len(x: nat, n: nat)
    ensures
        be(x, n).len() == n,
    decreases n,
{
    if n > 0 {
        lemma_be_len(x / 256, (n - 1) as nat);
    }
}

/// Writing a number in `n` bytes and reading it back gives the number, where it fits.
pub proof fn lemma_from_be_of_be(x: nat, n: nat)
    requires
        x < pow256(n),
    ensures
        from_be(be(x, n)) == x,
        be(x, n).len() == n,
    decreases n,
{
    lemma_be_len(x, n);
    if n > 0 {
        lemma_from_be_of_be(x / 256, (n - 1) as nat);
        assert(be(x, n).drop_last() =~= be(x / 256, (n - 1) as nat));
    }
}

/// Reading bytes as a number and writing it in as many bytes gives the bytes.
pub proof fn lemma_be_of_from_be(s: Seq<u8>)
    ensures
        be(from_be(s), s.len()) == s,
        from_be(s) < pow256(s.len()),
    decreases s.len(),
{
    if s.len() > 0 {
        lemma_be_of_from_be(s.drop_last());
        assert(from_be(s) / 256 == from_be(s.drop_last()));
        assert(from_be(s) % 256 == s.last());
        assert(be(from_be(s), s.len()) =~= s);
    }
}

pub proof fn lemma_pow256_values()
    ensures
        pow256(1) == 0x100,
        pow256(2) == 0x1_0000,
        pow256(4) == 0x1_0000_0000,
        pow256(8) == 0x1_0000_0000_0000_0000,
{
    reveal_with_fuel(pow256, 9);
}

/// An array is the only array that holds its bytes.
pub proof fn lemma_array_of<const N: usize>(a: [u8; N])
    ensures
        array_of::<N>(a@) == a,
{
    let b = array_of::<N>(a@);
    assert(b@ == a@);
    assert(a =~= b);
}

/// Two arrays with the same bytes are the same array.
pub proof fn lemma_array_ext<const N: usize>(a: [u8; N], b: [u8; N])
    requires
        a@ == b@,
    ensures
        a == b,
{
    assert(a =~= b);
}

/// Every sequence of `N` bytes is held by some array.
pub proof fn lemma_array_exists<const N: usize>(s: Seq<u8>)
    requires
        s.len() == N,
    ensures
        array_of::<N>(s)@ == s,
{
    let a = array_prefix::<N>(s, N as nat);
    lemma_array_prefix::<N>(s, N as nat);
    assert(a@ =~= s);
}

spec fn array_prefix<const N: usize>(s: Seq<u8>, n: nat) -> [u8; N]
    decreases n,
{
    if n == 0 {
        [0u8; N]
    } else {
        vstd::array::spec_array_update(array_prefix::<N>(s, (n - 1) as nat), n - 1, s[n - 1])
    }
}

proof fn lemma_array_prefix<const N: usize>(s: Seq<u8>, n: nat)
    requires
        s.len() == N,
        n <= N,
    ensures
        forall|i: int| 0 <= i < n ==> array_prefix::<N>(s, n)@[i] == s[i],
    decreases n,
{
    if n > 0 {
        lemma_array_prefix::<N>(s, (n - 1) as nat);
    }
}

/// Whether two byte slices hold the same bytes.
pub fn bytes_equal(a: &[u8], b: &[u8]) -> (equal: bool)
    ensures
        equal == (a@ == b@),
{
    if a.len() != b.len() {
        return false;
    }
    let mut i: usize = 0;
    while i < a.len()
        invariant
            i <= a.len(),
            a.len() == b.len(),
            forall|j: int| 0 <= j < i ==> a@[j] == b@[j],
        decreases a.len() - i,
    {
        if a[i] != b[i] {
            return false;
        }
        i += 1;
    }
    assert(a@ =~= b@);
    true
}

/// Whether two byte arrays are equal.
pub fn arrays_equal<const N: usize>(a: &[u8; N], b: &[u8; N]) -> (equal: bool)
    ensures
        equal == (*a == *b),
        equal == (a@ == b@),
{
    let equal = bytes_equal(a.as_slice(), b.as_slice());
    proof {
        if equal {
            lemma_array_ext(*a, *b);
        }
    }
    equal
}

/// Whether every byte of an array is zero.
pub fn is_zero<const N: usize>(a: &[u8; N]) -> (zero: bool)
    ensures
        zero == (a@ == zeros(N as nat)),
{
    let mut i: usize = 0;
    while i < N
        invariant
            i <= N,
            forall|j: int| 0 <= j < i ==> a@[j] == 0,
        decreases N - i,
    {
        if a[i] != 0 {
            assert(a@[i as int] != zeros(N as nat)[i as int]);
            return false;
        }
        i += 1;
    }
    assert(a@ =~= zeros(N as nat));
    true
}

/// `n` zero bytes.
pub open spec fn zeros(n: nat) -> Seq<u8> {
    Seq::new(n, |i: int| 0u8)
}

/// Appends all of `bytes`.
pub fn push_bytes(out: &mut Vec<u8>, bytes: &[u8])
    ensures
        final(out)@ == old(out)@ + bytes@,
{
    let ghost before = out@;
    out.extend_from_slice(bytes);
    assert(out@ =~= before + bytes@);
}

/// Appends the `n` low-order base-256 digits of `x`, most significant first.
pub fn push_be(out: &mut Vec<u8>, x: u64, n: usize)
    ensures
        final(out)@ == old(out)@ + be(x as nat, n as nat),
    decreases n,
{
    let ghost before = out@;
    if n == 0 {
        assert(before + be(x as nat, 0) =~= before);
    } else {
        push_be(out, x / 256, n - 1);
        out.push((x % 256) as u8);
        assert(out@ =~= before + be(x as nat, n as nat));
    }
}

/// Reads an `n`-byte big-endian number.
pub fn read_be(bytes: &[u8], pos: usize, n: usize) -> (x: u64)
    requires
        n <= 8,
        pos + n <= bytes@.len(),
    ensures
        x == from_be(bytes@.subrange(pos as int, pos + n)),
{
    let mut x: u64 = 0;
    let mut i: usize = 0;
    assert(bytes@.subrange(pos as int, pos + 0) =~= Seq::<u8>::empty());
    while i < n
        invariant
            i <= n <= 8,
            pos + n <= bytes.len(),
            x == from_be(bytes@.subrange(pos as int, pos + i)),
        decreases n - i,
    {
        let ghost digits = bytes@.subrange(pos as int, pos + i + 1);
        proof {
            lemma_be_of_from_be(digits);
            lemma_pow256_monotonic(digits.len(), 8);
            lemma_pow256_values();
            assert(digits.drop_last() =~= bytes@.subrange(pos as int, pos + i));
            assert(digits.last() == bytes@[pos + i]);
        }
        x = x * 256 + bytes[pos + i] as u64;
        i += 1;
    }
    x
}

proof fn lemma_pow256_monotonic(m: nat, n: nat)
    requires
        m <= n,
    ensures
        pow256(m) <= pow256(n),
    decreases n,
{
    if m < n {
        lemma_pow256_monotonic(m, (n - 1) as nat);
    }
}

/// Reads a big-endian 16-bit number.
pub fn read_u16(bytes: &[u8], pos: usize) -> (x: u16)
    requires
        pos + 2 <= bytes@.len(),
    ensures
        x == u16_at(bytes@, pos as int),
{
    let x: u64 = read_be(bytes, pos, 2);
    proof {
        lemma_be_of_from_be(bytes@.subrange(pos as int, pos + 2));
        lemma_pow256_values();
    }
    x as u16
}

/// Reads a big-endian 32-bit number.
pub fn read_u32(bytes: &[u8], pos: usize) -> (x: u32)
    requires
        pos + 4 <= bytes@.len(),
    ensures
        x == u32_at(bytes@, pos as int),
{
    let x: u64 = read_be(bytes, pos, 4);
    proof {
        lemma_be_of_from_be(bytes@.subrange(pos as int, pos + 4));
        lemma_pow256_values();
    }
    x as u32
}

/// Reads a big-endian 64-bit number.
pub fn read_u64(bytes: &[u8], pos: usize) -> (x: u64)
    requires
        pos + 8 <= bytes@.len(),
    ensures
        x == u64_at(bytes@, pos as int),
{
    read_be(bytes, pos, 8)
}

/// Copies the `N` bytes that start at `pos`.
pub fn read_array<const N: usize>(bytes: &[u8], pos: usize) -> (a: [u8; N])
    requires
        pos + N <= bytes@.len(),
    ensures
        a == array_at::<N>(bytes@, pos as int),
        a@ == bytes@.subrange(pos as int, pos + N),
{
    let mut a: [u8; N] = [0u8; N];
    let mut i: usize = 0;
    while i < N
        invariant
            i <= N,
            pos + N <= bytes.len(),
            forall|j: int| 0 <= j < i ==> a@[j] == bytes@[pos + j],
        decreases N - i,
    {
        a[i] = bytes[pos + i];
        i += 1;
    }
    assert(a@ =~= bytes@.subrange(pos as int, pos + N));
    proof {
        lemma_array_of(a);
    }
    a
}

/// Whether the bytes from `pos` on begin with `prefix`.
pub fn starts_at(bytes: &[u8], pos: usize, prefix: &[u8]) -> (found: bool)
    requires
        pos <= bytes@.len(),
    ensures
        found == has_at(bytes@, pos as int, prefix@),
{
    if bytes.len() - pos < prefix.len() {
        return false;
    }
    bytes_equal(slice_subrange(bytes, pos, pos + prefix.len()), prefix)
}

/// Copies the bytes from `from` up to `to`.
pub fn copy_range(bytes: &[u8], from: usize, to: usize) -> (copy: Vec<u8>)
    requires
        from <= to <= bytes@.len(),
    ensures
        copy@ == bytes@.subrange(from as int, to as int),
{
    let mut copy: Vec<u8> = Vec::new();
    push_bytes(&mut copy, slice_subrange(bytes, from, to));
    assert(copy@ =~= bytes@.subrange(from as int, to as int));
    copy
}

/// The first `n` bytes of `r`, and what follows them.
pub open spec fn take_bytes(r: Seq<u8>, n: int) -> Option<(Seq<u8>, Seq<u8>)> {
    if 0 <= n <= r.len() {
        Some((r.subrange(0, n), r.subrange(n, r.len() as int)))
    } else {
        None
    }
}

/// The first byte of `r`, and what follows it.
pub open spec fn take_u8(r: Seq<u8>) -> Option<(u8, Seq<u8>)> {
    if 1 <= r.len() {
        Some((r[0], r.subrange(1, r.len() as int)))
    } else {
        None
    }
}

/// The big-endian 16-bit number that `r` begins with, and what follows it.
pub open spec fn take_u16(r: Seq<u8>) -> Option<(u16, Seq<u8>)> {
    if 2 <= r.len() {
        Some((u16_at(r, 0), r.subrange(2, r.len() as int)))
    } else {
        None
    }
}

/// The big-endian 32-bit number that `r` begins with, and what follows it.
pub open spec fn take_u32(r: Seq<u8>) -> Option<(u32, Seq<u8>)> {
    if 4 <= r.len() {
        Some((u32_at(r, 0), r.subrange(4, r.len() as int)))
    } else {
        None
    }
}

/// The big-endian 64-bit number that `r` begins with, and what follows it.
pub open spec fn take_u64(r: Seq<u8>) -> Option<(u64, Seq<u8>)> {
    if 8 <= r.len() {
        Some((u64_at(r, 0), r.subrange(8, r.len() as int)))
    } else {
        None
    }
}

/// The `N` bytes that `r` begins with, and what follows them.
pub open spec fn take_array<const N: usize>(r: Seq<u8>) -> Option<([u8; N], Seq<u8>)> {
    if N <= r.len() {
        Some((array_at::<N>(r, 0), r.subrange(N as int, r.len() as int)))
    } else {
        None
    }
}

pub proof fn lemma_take_bytes(x: Seq<u8>, rest: Seq<u8>)
    ensures
        take_bytes(x + rest, x.len() as int) == Some((x, rest)),
{
    let r = x + rest;
    assert(r.subrange(0, x.len() as int) =~= x);
    assert(r.subrange(x.len() as int, r.len() as int) =~= rest);
}

pub proof fn lemma_take_u16(x: u16, rest: Seq<u8>)
    ensures
        take_u16(be(x as nat, 2) + rest) == Some((x, rest)),
        be(x as nat, 2).len() == 2,
{
    let r = be(x as nat, 2) + rest;
    lemma_pow256_values();
    lemma_from_be_of_be(x as nat, 2);
    assert(r.subrange(0, 2) =~= be(x as nat, 2));
    assert(r.subrange(2, r.len() as int) =~= rest);
}

pub proof fn lemma_take_u32(x: u32, rest: Seq<u8>)
    ensures
        take_u32(be(x as nat, 4) + rest) == Some((x, rest)),
        be(x as nat, 4).len() == 4,
{
    let r = be(x as nat, 4) + rest;
    lemma_pow256_values();
    lemma_from_be_of_be(x as nat, 4);
    assert(r.subrange(0, 4) =~= be(x as nat, 4));
    assert(r.subrange(4, r.len() as int) =~= rest);
}

pub proof fn lemma_take_u64(x: u64, rest: Seq<u8>)
    ensures
        take_u64(be(x as nat, 8) + rest) == Some((x, rest)),
        be(x as nat, 8).len() == 8,
{
    let r = be(x as nat, 8) + rest;
    lemma_pow256_values();
    lemma_from_be_of_be(x as nat, 8);
    assert(r.subrange(0, 8) =~= be(x as nat, 8));
    assert(r.subrange(8, r.len() as int) =~= rest);
}

pub proof fn lemma_take_array<const N: usize>(x: [u8; N], rest: Seq<u8>)
    ensures
        take_array::<N>(x@ + rest) == Some((x, rest)),
{
    let r = x@ + rest;
    lemma_array_of(x);
    assert(r.subrange(0, N as int) =~= x@);
    assert(r.subrange(N as int, r.len() as int) =~= rest);
}

/// Whatever was taken off the front of `r` is what `r` began with.
pub proof fn lemma_taken(r: Seq<u8>)
    ensures
        take_u8(r) matches Some((x, rest)) ==> r == seq![x] + rest,
        take_u16(r) matches Some((x, rest)) ==> r == be(x as nat, 2) + rest,
        take_u32(r) matches Some((x, rest)) ==> r == be(x as nat, 4) + rest,
        take_u64(r) matches Some((x, rest)) ==> r == be(x as nat, 8) + rest,
{
    lemma_pow256_values();
    if 1 <= r.len() {
        assert(r =~= seq![r[0]] + r.subrange(1, r.len() as int));
    }
    if 2 <= r.len() {
        lemma_be_of_from_be(r.subrange(0, 2));
        assert(r =~= r.subrange(0, 2) + r.subrange(2, r.len() as int));
    }
    if 4 <= r.len() {
        lemma_be_of_from_be(r.subrange(0, 4));
        assert(r =~= r.subrange(0, 4) + r.subrange(4, r.len() as int));
    }
    if 8 <= r.len() {
        lemma_be_of_from_be(r.subrange(0, 8));
        assert(r =~= r.subrange(0, 8) + r.subrange(8, r.len() as int));
    }
}

/// Whatever bytes were taken off the front of `r` are the bytes it began with.
pub proof fn lemma_taken_bytes(r: Seq<u8>, n: int)
    ensures
        take_bytes(r, n) matches Some((x, rest)) ==> r == x + rest && x.len() == n,
{
    if 0 <= n <= r.len() {
        assert(r =~= r.subrange(0, n) + r.subrange(n, r.len() as int));
    }
}

/// Appending is associative.
pub proof fn lemma_assoc(a: Seq<u8>, b: Seq<u8>, c: Seq<u8>)
    ensures
        (a + b) + c == a + (b + c),
{
    assert((a + b) + c =~= a + (b + c));
}

/// The encodings of several items one after the other.
pub open spec fn items_bytes<T>(item: spec_fn(T) -> Seq<u8>, s: Seq<T>) -> Seq<u8>
    decreases s.len(),
{
    if s.len() == 0 {
        Seq::empty()
    } else {
        items_bytes(item, s.drop_last()) + item(s.last())
    }
}

/// `n` items one after the other.
pub open spec fn p_items<T, E>(
    item: spec_fn(Seq<u8>) -> Result<(T, Seq<u8>), E>,
    r: Seq<u8>,
    n: nat,
) -> Result<(Seq<T>, Seq<u8>), E>
    decreases n,
{
    if n == 0 {
        Ok((Seq::empty(), r))
    } else {
        match p_items(item, r, (n - 1) as nat) {
            Err(e) => Err(e),
            Ok((s, r1)) => match item(r1) {
                Err(e) => Err(e),
                Ok((x, r2)) => Ok((s.push(x), r2)),
            },
        }
    }
}

/// Once an item is broken, so is every longer list.
pub proof fn lemma_items_error<T, E>(
    item: spec_fn(Seq<u8>) -> Result<(T, Seq<u8>), E>,
    r: Seq<u8>,
    n: nat,
    m: nat,
)
    requires
        n <= m,
        p_items(item, r, n) is Err,
    ensures
        p_items(item, r, m) == p_items(item, r, n),
    decreases m,
{
    if n < m {
        lemma_items_error(item, r, n, (m - 1) as nat);
    }
}

/// A list that is written is read back, where each of its items is.
pub proof fn lemma_items_round_trip<T, E>(
    enc: spec_fn(T) -> Seq<u8>,
    item: spec_fn(Seq<u8>) -> Result<(T, Seq<u8>), E>,
    s: Seq<T>,
    rest: Seq<u8>,
)
    requires
        forall|i: int, tail: Seq<u8>|
            0 <= i < s.len() ==> item(#[trigger] (enc(s[i]) + tail)) == Ok::<
                (T, Seq<u8>),
                E,
            >((s[i], tail)),
    ensures
        p_items(item, items_bytes(enc, s) + rest, s.len()) == Ok::<
            (Seq<T>, Seq<u8>),
            E,
        >((s, rest)),
    decreases s.len(),
{
    if s.len() == 0 {
        assert(items_bytes(enc, s) + rest =~= rest);
        assert(s =~= Seq::<T>::empty());
    } else {
        let init = s.drop_last();
        let last = enc(s.last());
        lemma_assoc(items_bytes(enc, init), last, rest);
        assert forall|i: int, tail: Seq<u8>| 0 <= i < init.len() implies item(
            #[trigger] (enc(init[i]) + tail),
        ) == Ok::<(T, Seq<u8>), E>((init[i], tail)) by {
            assert(init[i] == s[i]);
            assert(item(enc(s[i]) + tail) == Ok::<(T, Seq<u8>), E>((s[i], tail)));
        }
        lemma_items_round_trip(enc, item, init, last + rest);
        assert(s.last() == s[s.len() - 1]);
        assert(item(enc(s[s.len() - 1]) + rest) == Ok::<(T, Seq<u8>), E>(
            (s[s.len() - 1], rest),
        ));
        assert(init.push(s.last()) =~= s);
    }
}

/// As many items are read as were asked for.
pub proof fn lemma_items_count<T, E>(
    item: spec_fn(Seq<u8>) -> Result<(T, Seq<u8>), E>,
    r: Seq<u8>,
    n: nat,
)
    ensures
        p_items(item, r, n) matches Ok((s, rest)) ==> s.len() == n,
    decreases n,
{
    if n > 0 {
        lemma_items_count(item, r, (n - 1) as nat);
    }
}

/// A list that was read is the list that was written, where each of its items is.
pub proof fn lemma_items_canonical<T, E>(
    enc: spec_fn(T) -> Seq<u8>,
    item: spec_fn(Seq<u8>) -> Result<(T, Seq<u8>), E>,
    r: Seq<u8>,
    n: nat,
)
    requires
        forall|r: Seq<u8>| #[trigger]
            item(r) is Ok ==> r == enc(item(r)->Ok_0.0) + item(r)->Ok_0.1,
    ensures
        p_items(item, r, n) matches Ok((s, rest)) ==> s.len() == n && r == items_bytes(enc, s) + rest,
    decreases n,
{
    if n == 0 {
        assert(r =~= items_bytes(enc, Seq::empty()) + r);
    } else {
        lemma_items_canonical(enc, item, r, (n - 1) as nat);
        if p_items(item, r, n) is Ok {
            let (front, r1) = p_items(item, r, (n - 1) as nat)->Ok_0;
            let (x, rest) = item(r1)->Ok_0;
            assert(front.push(x).drop_last() =~= front);
            lemma_assoc(items_bytes(enc, front), enc(x), rest);
        }
    }
}

/// A place in a byte slice from which the next field is read.
pub struct Cursor<'a> {
    bytes: &'a [u8],
    pos: usize,
}

impl<'a> Cursor<'a> {
    #[verifier::type_invariant]
    spec fn well_formed(self) -> bool {
        self.pos <= self.bytes@.len()
    }

    /// The bytes that have not been read.
    pub closed spec fn rest(&self) -> Seq<u8> {
        self.bytes@.subrange(self.pos as int, self.bytes@.len() as int)
    }

    pub fn new(bytes: &'a [u8]) -> (cursor: Self)
        ensures
            cursor.rest() == bytes@,
    {
        let cursor = Cursor { bytes, pos: 0 };
        assert(cursor.rest() =~= bytes@);
        cursor
    }

    /// How many bytes have not been read.
    pub fn remaining(&self) -> (n: usize)
        ensures
            n == self.rest().len(),
    {
        proof {
            use_type_invariant(self);
        }
        self.bytes.len() - self.pos
    }

    /// Whether everything was read.
    pub fn is_done(&self) -> (done: bool)
        ensures
            done == (self.rest() == Seq::<u8>::empty()),
    {
        proof {
            use_type_invariant(self);
            assert(self.rest().len() == self.bytes@.len() - self.pos);
            if self.pos == self.bytes@.len() {
                assert(self.rest() =~= Seq::<u8>::empty());
            }
        }
        self.pos == self.bytes.len()
    }

    /// Reads the next `n` bytes.
    pub fn take(&mut self, n: usize) -> (taken: Option<&'a [u8]>)
        ensures
            match take_bytes(old(self).rest(), n as int) {
                Some((x, rest)) => taken matches Some(bytes) && bytes@ == x && final(self).rest()
                    == rest,
                None => taken is None && final(self).rest() == old(self).rest(),
            },
    {
        proof {
            use_type_invariant(&*self);
        }
        let ghost before = self.rest();
        if self.bytes.len() - self.pos < n {
            return None;
        }
        let start: usize = self.pos;
        let taken: &'a [u8] = slice_subrange(self.bytes, start, start + n);
        self.pos = start + n;
        assert(taken@ =~= before.subrange(0, n as int));
        assert(self.rest() =~= before.subrange(n as int, before.len() as int));
        Some(taken)
    }

    /// Reads a byte.
    pub fn u8(&mut self) -> (x: Option<u8>)
        ensures
            match take_u8(old(self).rest()) {
                Some((value, rest)) => x == Some(value) && final(self).rest() == rest,
                None => x is None && final(self).rest() == old(self).rest(),
            },
    {
        match self.take(1) {
            Some(bytes) => Some(bytes[0]),
            None => None,
        }
    }

    /// Reads a big-endian 16-bit number.
    pub fn u16(&mut self) -> (x: Option<u16>)
        ensures
            match take_u16(old(self).rest()) {
                Some((value, rest)) => x == Some(value) && final(self).rest() == rest,
                None => x is None && final(self).rest() == old(self).rest(),
            },
    {
        match self.take(2) {
            Some(bytes) => {
                assert(bytes@.subrange(0, 2) =~= bytes@);
                Some(read_u16(bytes, 0))
            },
            None => None,
        }
    }

    /// Reads a big-endian 32-bit number.
    pub fn u32(&mut self) -> (x: Option<u32>)
        ensures
            match take_u32(old(self).rest()) {
                Some((value, rest)) => x == Some(value) && final(self).rest() == rest,
                None => x is None && final(self).rest() == old(self).rest(),
            },
    {
        match self.take(4) {
            Some(bytes) => {
                assert(bytes@.subrange(0, 4) =~= bytes@);
                Some(read_u32(bytes, 0))
            },
            None => None,
        }
    }

    /// Reads a big-endian 64-bit number.
    pub fn u64(&mut self) -> (x: Option<u64>)
        ensures
            match take_u64(old(self).rest()) {
                Some((value, rest)) => x == Some(value) && final(self).rest() == rest,
                None => x is None && final(self).rest() == old(self).rest(),
            },
    {
        match self.take(8) {
            Some(bytes) => {
                assert(bytes@.subrange(0, 8) =~= bytes@);
                Some(read_u64(bytes, 0))
            },
            None => None,
        }
    }

    /// Reads `N` bytes into an array.
    pub fn array<const N: usize>(&mut self) -> (x: Option<[u8; N]>)
        ensures
            match take_array::<N>(old(self).rest()) {
                Some((value, rest)) => x == Some(value) && final(self).rest() == rest,
                None => x is None && final(self).rest() == old(self).rest(),
            },
    {
        match self.take(N) {
            Some(bytes) => {
                assert(bytes@.subrange(0, N as int) =~= bytes@);
                Some(read_array::<N>(bytes, 0))
            },
            None => None,
        }
    }

    /// Reads `prefix`, if it is what comes next.
    pub fn expect(&mut self, prefix: &[u8]) -> (found: bool)
        ensures
            match take_bytes(old(self).rest(), prefix@.len() as int) {
                Some((x, rest)) => found == (x == prefix@) && final(self).rest() == rest,
                None => !found && final(self).rest() == old(self).rest(),
            },
    {
        match self.take(prefix.len()) {
            Some(bytes) => bytes_equal(bytes, prefix),
            None => false,
        }
    }
}

/// A number is written with its most significant byte first: each byte is the digit of its place to
/// the base 256, and a number that fits is the sum of its digits.
pub proof fn law_most_significant_first(x: nat, n: nat, i: int)
    requires
        0 <= i < n,
    ensures
        be(x, n).len() == n,
        be(x, n)[i] as nat == (x / pow256((n - 1 - i) as nat)) % 256,
    decreases n,
{
    lemma_be_len(x, n);
    lemma_be_len(x / 256, (n - 1) as nat);
    if i < n - 1 {
        law_most_significant_first(x / 256, (n - 1) as nat, i);
        let k = (n - 2 - i) as nat;
        lemma_pow256_pos(k);
        vstd::arithmetic::div_mod::lemma_div_denominator(x as int, 256, pow256(k) as int);
        assert(pow256(k + 1) == 256 * pow256(k));
        assert((x / 256) / pow256(k) == x / pow256((k + 1) as nat));
        assert((n - 1 - i) as nat == k + 1);
        assert(be(x, n)[i] == be(x / 256, (n - 1) as nat)[i]);
    } else {
        assert(pow256(0) == 1);
        assert(x / 1 == x);
    }
}

proof fn lemma_pow256_pos(n: nat)
    ensures
        pow256(n) > 0,
    decreases n,
{
    if n > 0 {
        lemma_pow256_pos((n - 1) as nat);
    }
}

/// A number is read with its most significant byte first: one more byte in front counts for its
/// place, one more at the end for one.
pub proof fn law_read_most_significant_first(s: Seq<u8>, first: u8)
    ensures
        from_be(seq![first] + s) == first * pow256(s.len()) + from_be(s),
    decreases s.len(),
{
    let whole = seq![first] + s;
    if s.len() == 0 {
        assert(whole.drop_last() =~= Seq::<u8>::empty());
        assert(from_be(whole.drop_last()) == 0);
        assert(pow256(0) == 1);
    } else {
        law_read_most_significant_first(s.drop_last(), first);
        assert(whole.drop_last() =~= seq![first] + s.drop_last());
        assert(whole.last() == s.last());
        let p = pow256((s.len() - 1) as nat);
        let f = first as nat;
        assert((f * p) * 256 == f * (256 * p)) by (nonlinear_arith);
    }
}

} // verus!
