use vstd::prelude::*;

verus! {

/// Copy `source` into the front of `buf`, returning the remainder bytes.
pub fn encode_bytes<'a>(source: &[u8], buf: &'a mut [u8]) -> (rest: &'a mut [u8])
    requires
        old(buf)@.len() >= source@.len(),
    ensures
        rest@ == old(buf)@.skip(source@.len() as int),
        final(buf)@ == source@ + final(rest)@,
{
    let n = source.len();
    let mut i: usize = 0;
    while i < n
        invariant
            n == source@.len(),
            i <= n,
            buf@.len() == old(buf)@.len(),
            old(buf)@.len() >= n,
            forall|j: int| 0 <= j < i ==> buf@[j] == source@[j],
            forall|j: int| n <= j < buf@.len() ==> buf@[j] == old(buf)@[j],
        decreases n - i,
    {
        buf[i] = source[i];
        i = i + 1;
    }
    let (head, rest) = buf.split_at_mut(n);
    proof {
        assert(head@ =~= source@);
        assert(rest@ =~= old(buf)@.skip(n as int));
    }
    rest
}

/// Fill the front `n` bytes of `buf` with zeroes, returning the remainder bytes.
pub fn encode_zeroes<'a>(n: usize, buf: &'a mut [u8]) -> (rest: &'a mut [u8])
    requires
        old(buf)@.len() >= n,
    ensures
        rest@ == old(buf)@.skip(n as int),
        final(buf)@ == Seq::new(n as nat, |i: int| 0u8) + final(rest)@,
{
    let mut i: usize = 0;
    while i < n
        invariant
            i <= n,
            buf@.len() == old(buf)@.len(),
            old(buf)@.len() >= n,
            forall|j: int| 0 <= j < i ==> buf@[j] == 0u8,
            forall|j: int| n <= j < buf@.len() ==> buf@[j] == old(buf)@[j],
        decreases n - i,
    {
        buf[i] = 0u8;
        i = i + 1;
    }
    let (head, rest) = buf.split_at_mut(n);
    proof {
        assert(head@ =~= Seq::new(n as nat, |i: int| 0u8));
        assert(rest@ =~= old(buf)@.skip(n as int));
    }
    rest
}

/// The `len` bytes that a read of `len` bytes at the start of `bytes` fills: what is
/// available, followed by zeroes.
pub open spec fn spec_read_padded(bytes: Seq<u8>, len: nat) -> Seq<u8> {
    Seq::new(len, |i: int| if i < bytes.len() { bytes[i] } else { 0u8 })
}

/// Read `len` bytes from the start of `bytes` into a zeroed buffer; bytes past the end of
/// the input are left zero.
pub fn read_padded(bytes: &[u8], len: usize) -> (out: Vec<u8>)
    ensures
        out@ == spec_read_padded(bytes@, len as nat),
{
    let mut out: Vec<u8> = Vec::new();
    let mut i: usize = 0;
    while i < len
        invariant
            i <= len,
            out@.len() == i,
            forall|j: int| 0 <= j < i ==> out@[j] == spec_read_padded(bytes@, len as nat)[j],
        decreases len - i,
    {
        if i < bytes.len() {
            out.push(bytes[i]);
        } else {
            out.push(0u8);
        }
        i = i + 1;
    }
    assert(out@ =~= spec_read_padded(bytes@, len as nat));
    out
}

/// `t` with `b` written at `at`, as a cursor writes: bytes past the end extend it, and a gap
/// before `at` reads as zeroes.
pub open spec fn spec_write_at(t: Seq<u8>, at: int, b: Seq<u8>) -> Seq<u8> {
    let len = if t.len() < at + b.len() {
        at + b.len()
    } else {
        t.len() as int
    };
    Seq::new(
        len as nat,
        |k: int|
            if at <= k < at + b.len() {
                b[k - at]
            } else if k < t.len() {
                t[k]
            } else {
                0u8
            },
    )
}

/// Write `bytes` into `target` at `at`, as a cursor writes.
pub fn write_at(target: &mut Vec<u8>, at: usize, bytes: &[u8])
    requires
        at + bytes@.len() <= usize::MAX,
    ensures
        final(target)@ == spec_write_at(old(target)@, at as int, bytes@),
{
    while target.len() < at
        invariant
            target@.len() <= at || target@.len() == old(target)@.len(),
            old(target)@.len() <= target@.len(),
            forall|k: int| 0 <= k < old(target)@.len() ==> target@[k] == old(target)@[k],
            forall|k: int| old(target)@.len() <= k < target@.len() ==> target@[k] == 0u8,
        decreases at - target@.len(),
    {
        target.push(0u8);
    }
    let n = bytes.len();
    let mut i: usize = 0;
    let ghost padded = target@;
    while i < n
        invariant
            n == bytes@.len(),
            i <= n,
            at + n <= usize::MAX,
            padded.len() >= at,
            padded.len() <= at || padded.len() == old(target)@.len(),
            forall|k: int| 0 <= k < old(target)@.len() ==> padded[k] == old(target)@[k],
            forall|k: int| old(target)@.len() <= k < padded.len() ==> padded[k] == 0u8,
            target@.len() == if padded.len() < at + i {
                at + i
            } else {
                padded.len() as int
            },
            forall|k: int| 0 <= k < target@.len() ==> #[trigger] target@[k] == if at <= k < at + i {
                bytes@[k - at]
            } else {
                padded[k]
            },
        decreases n - i,
    {
        if at + i < target.len() {
            target.set(at + i, bytes[i]);
        } else {
            target.push(bytes[i]);
        }
        i = i + 1;
    }
    proof {
        assert(target@ =~= spec_write_at(old(target)@, at as int, bytes@));
    }
}

/// A write within the bytes keeps their length, puts `b` at `at`, and keeps every range that
/// it doesn't overlap.
pub proof fn lemma_write_at_within(t: Seq<u8>, at: int, b: Seq<u8>)
    requires
        0 <= at,
        at + b.len() <= t.len(),
    ensures
        spec_write_at(t, at, b).len() == t.len(),
        spec_write_at(t, at, b).subrange(at, at + b.len()) == b,
        forall|x: int, y: int|
            0 <= x <= y <= t.len() && (y <= at || at + b.len() <= x) ==> #[trigger] spec_write_at(t, at, b).subrange(x, y)
                == t.subrange(x, y),
{
    let w = spec_write_at(t, at, b);
    assert(w.subrange(at, at + b.len()) =~= b);
    assert forall|x: int, y: int|
        0 <= x <= y <= t.len() && (y <= at || at + b.len() <= x) implies #[trigger] w.subrange(x, y) == t.subrange(x, y) by {
        assert(w.subrange(x, y) =~= t.subrange(x, y));
    }
}

} // verus!
