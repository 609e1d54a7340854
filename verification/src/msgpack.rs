use vstd::prelude::*;

use msgpacker::Message;

use crate::context::strings_view;

verus! {

/// Two big-endian bytes of `n`, below 2^16.
pub open spec fn spec_be2(n: nat) -> Seq<u8> {
    seq![(n / 0x100) as u8, (n % 0x100) as u8]
}

/// Four big-endian bytes of `n`, below 2^32.
pub open spec fn spec_be4(n: nat) -> Seq<u8> {
    seq![(n / 0x1000000) as u8, ((n / 0x10000) % 0x100) as u8, ((n / 0x100) % 0x100) as u8, (n % 0x100) as u8]
}

/// Big-endian value of the two bytes at `at`.
pub open spec fn spec_read_be2(bytes: Seq<u8>, at: int) -> int {
    bytes[at] * 0x100 + bytes[at + 1]
}

/// Big-endian value of the four bytes at `at`.
pub open spec fn spec_read_be4(bytes: Seq<u8>, at: int) -> int {
    ((bytes[at] * 0x100 + bytes[at + 1]) * 0x100 + bytes[at + 2]) * 0x100 + bytes[at + 3]
}

/// MessagePack header of a string of `n` bytes: fixstr, str8, str16 or str32, the smallest
/// that holds `n`.
pub open spec fn spec_str_header(n: nat) -> Seq<u8> {
    if n <= 31 {
        seq![(0xa0 + n) as u8]
    } else if n <= 0xff {
        seq![0xd9u8, n as u8]
    } else if n <= 0xffff {
        seq![0xdau8] + spec_be2(n)
    } else {
        seq![0xdbu8] + spec_be4(n)
    }
}

/// MessagePack header of an array of `n` elements: fixarray, array16 or array32, the
/// smallest that holds `n`.
pub open spec fn spec_array_header(n: nat) -> Seq<u8> {
    if n <= 15 {
        seq![(0x90 + n) as u8]
    } else if n <= 0xffff {
        seq![0xdcu8] + spec_be2(n)
    } else {
        seq![0xddu8] + spec_be4(n)
    }
}

/// MessagePack strings `items`, one after the other, each its header then its UTF-8 bytes.
pub open spec fn spec_packed_strings(items: Seq<Seq<char>>) -> Seq<u8>
    decreases items.len(),
{
    if items.len() == 0 {
        Seq::empty()
    } else {
        let b = vstd::utf8::encode_utf8(items.last());
        spec_packed_strings(items.drop_last()) + spec_str_header(b.len()) + b
    }
}

/// Bytes that msgpacker's `Message::pack` writes for an array of the strings `items`: the
/// array header, then each string.
pub open spec fn msgpack_string_array(items: Seq<Seq<char>>) -> Seq<u8> {
    spec_array_header(items.len()) + spec_packed_strings(items)
}

/// Length of a message at `at` that holds no array, map or extension, when it lies within
/// `bytes`: nil, booleans, integers, floats, strings and binaries.
pub open spec fn spec_scalar_message_len(bytes: Seq<u8>, at: int) -> Option<int> {
    if at < 0 || at >= bytes.len() {
        None
    } else {
        let b = bytes[at];
        let len: Option<int> = if b <= 0x7f || b >= 0xe0 || b == 0xc0 || b == 0xc2 || b == 0xc3 {
            Some(1)
        } else if b == 0xcc || b == 0xd0 {
            Some(2)
        } else if b == 0xcd || b == 0xd1 {
            Some(3)
        } else if b == 0xce || b == 0xd2 || b == 0xca {
            Some(5)
        } else if b == 0xcf || b == 0xd3 || b == 0xcb {
            Some(9)
        } else if 0xa0 <= b <= 0xbf {
            Some(1 + (b - 0xa0))
        } else if (b == 0xd9 || b == 0xc4) && at + 2 <= bytes.len() {
            Some(2 + bytes[at + 1])
        } else if (b == 0xda || b == 0xc5) && at + 3 <= bytes.len() {
            Some(3 + spec_read_be2(bytes, at + 1))
        } else if (b == 0xdb || b == 0xc6) && at + 5 <= bytes.len() {
            Some(5 + spec_read_be4(bytes, at + 1))
        } else {
            None
        };
        match len {
            Some(l) => if at + l <= bytes.len() {
                Some(l)
            } else {
                None
            },
            None => None,
        }
    }
}

/// End of `n` messages without arrays, maps or extensions, one after the other from `at`,
/// when they all lie within `bytes`.
pub open spec fn spec_scalar_messages_end(bytes: Seq<u8>, at: int, n: nat) -> Option<int>
    decreases n,
{
    if n == 0 {
        Some(at)
    } else {
        match spec_scalar_messages_end(bytes, at, (n - 1) as nat) {
            Some(p) => match spec_scalar_message_len(bytes, p) {
                Some(l) => Some(p + l),
                None => None,
            },
            None => None,
        }
    }
}

/// Length of a message at `at` that holds no extension, and is either such a message
/// without arrays or maps, or an array or a map of those, when it lies within `bytes`.
pub open spec fn spec_element_message_len(bytes: Seq<u8>, at: int) -> Option<int> {
    if at < 0 || at >= bytes.len() {
        None
    } else {
        let b = bytes[at];
        let end: Option<int> = if 0x90 <= b <= 0x9f {
            spec_scalar_messages_end(bytes, at + 1, (b - 0x90) as nat)
        } else if b == 0xdc {
            if at + 3 <= bytes.len() {
                spec_scalar_messages_end(bytes, at + 3, spec_read_be2(bytes, at + 1) as nat)
            } else {
                None
            }
        } else if b == 0xdd {
            if at + 5 <= bytes.len() {
                spec_scalar_messages_end(bytes, at + 5, spec_read_be4(bytes, at + 1) as nat)
            } else {
                None
            }
        } else if 0x80 <= b <= 0x8f {
            spec_scalar_messages_end(bytes, at + 1, (2 * (b - 0x80)) as nat)
        } else if b == 0xde {
            if at + 3 <= bytes.len() {
                spec_scalar_messages_end(bytes, at + 3, (2 * spec_read_be2(bytes, at + 1)) as nat)
            } else {
                None
            }
        } else if b == 0xdf {
            if at + 5 <= bytes.len() {
                spec_scalar_messages_end(bytes, at + 5, (2 * spec_read_be4(bytes, at + 1)) as nat)
            } else {
                None
            }
        } else {
            match spec_scalar_message_len(bytes, at) {
                Some(l) => Some(at + l),
                None => None,
            }
        };
        match end {
            Some(e) => Some(e - at),
            None => None,
        }
    }
}

/// End of `n` messages as [`spec_element_message_len`] measures them, one after the other
/// from `at`, when they all lie within `bytes`.
pub open spec fn spec_element_messages_end(bytes: Seq<u8>, at: int, n: nat) -> Option<int>
    decreases n,
{
    if n == 0 {
        Some(at)
    } else {
        match spec_element_messages_end(bytes, at, (n - 1) as nat) {
            Some(p) => match spec_element_message_len(bytes, p) {
                Some(l) => Some(p + l),
                None => None,
            },
            None => None,
        }
    }
}

/// The message at the front of `bytes` is flat and complete: an array, or a map, of messages
/// as [`spec_element_message_len`] measures them, or one message without array, map or
/// extension, lying within `bytes`. On such bytes msgpacker's `Message::unpack` recurses at
/// most twice, meets no extension and allocates no more than the bytes hold; empty bytes are
/// flat too, as the unpacking fails at once.
pub open spec fn spec_msgpack_flat(bytes: Seq<u8>) -> bool {
    if bytes.len() == 0 {
        true
    } else {
        let b = bytes[0];
        if 0x90 <= b <= 0x9f {
            spec_element_messages_end(bytes, 1, (b - 0x90) as nat) is Some
        } else if b == 0xdc {
            bytes.len() >= 3 && spec_element_messages_end(bytes, 3, spec_read_be2(bytes, 1) as nat) is Some
        } else if b == 0xdd {
            bytes.len() >= 5 && spec_element_messages_end(bytes, 5, spec_read_be4(bytes, 1) as nat) is Some
        } else if 0x80 <= b <= 0x8f {
            spec_element_messages_end(bytes, 1, (2 * (b - 0x80)) as nat) is Some
        } else if b == 0xde {
            bytes.len() >= 3 && spec_element_messages_end(bytes, 3, (2 * spec_read_be2(bytes, 1)) as nat) is Some
        } else if b == 0xdf {
            bytes.len() >= 5 && spec_element_messages_end(bytes, 5, (2 * spec_read_be4(bytes, 1)) as nat) is Some
        } else {
            spec_scalar_message_len(bytes, 0) is Some
        }
    }
}

/// What an unpacking reads from the front of `bytes` when they are flat; `None` otherwise.
pub open spec fn spec_unpack_flat(bytes: Seq<u8>) -> Option<(nat, Option<Seq<Option<Seq<char>>>>)> {
    if spec_msgpack_flat(bytes) {
        msgpack_unpack(bytes)
    } else {
        None
    }
}

/// Two big-endian bytes read back give the number.
proof fn lemma_be2(n: nat)
    requires
        n <= 0xffff,
    ensures
        spec_read_be2(spec_be2(n), 0) == n,
        spec_be2(n).len() == 2,
{
    assert((n / 0x100) < 0x100 && (n / 0x100) * 0x100 + n % 0x100 == n) by (nonlinear_arith)
        requires
            n <= 0xffff,
    ;
}

/// Four big-endian bytes read back give the number.
proof fn lemma_be4(n: nat)
    requires
        n <= 0xffff_ffff,
    ensures
        spec_read_be4(spec_be4(n), 0) == n,
        spec_be4(n).len() == 4,
{
    let a = n / 0x1000000;
    let b = (n / 0x10000) % 0x100;
    let c = (n / 0x100) % 0x100;
    let d = n % 0x100;
    assert(a < 0x100 && ((a * 0x100 + b) * 0x100 + c) * 0x100 + d == n) by (nonlinear_arith)
        requires
            n <= 0xffff_ffff,
            a == n / 0x1000000,
            b == (n / 0x10000) % 0x100,
            c == (n / 0x100) % 0x100,
            d == n % 0x100,
    ;
}

/// What msgpacker's `Message::unpack` reads from the front of `bytes`: `None` when it fails;
/// otherwise the count of bytes it consumed and, if the message is an array, its elements,
/// each `None` where the element is not a string.
pub uninterp spec fn msgpack_unpack(bytes: Seq<u8>) -> Option<(nat, Option<Seq<Option<Seq<char>>>>)>;

/// MessagePack can frame the strings: the array and every string's bytes fit in 32 bits.
pub open spec fn spec_msgpack_fits(items: Seq<Seq<char>>) -> bool {
    &&& items.len() <= u32::MAX
    &&& forall|i: int| 0 <= i < items.len() ==> vstd::utf8::encode_utf8(#[trigger] items[i]).len() <= u32::MAX
}

/// A string header followed by that many bytes is one message without containers.
proof fn lemma_str_message(bytes: Seq<u8>, p: int, n: nat)
    requires
        0 <= p,
        n <= u32::MAX,
        p + spec_str_header(n).len() + n <= bytes.len(),
        bytes.subrange(p, p + spec_str_header(n).len()) == spec_str_header(n),
    ensures
        spec_scalar_message_len(bytes, p) == Some((spec_str_header(n).len() + n) as int),
{
    let h = spec_str_header(n);
    assert(bytes[p] == bytes.subrange(p, p + h.len())[0]);
    if n <= 31 {
    } else if n <= 0xff {
        assert(bytes[p + 1] == bytes.subrange(p, p + h.len())[1]);
    } else if n <= 0xffff {
        lemma_be2(n);
        assert(bytes[p + 1] == bytes.subrange(p, p + h.len())[1]);
        assert(bytes[p + 2] == bytes.subrange(p, p + h.len())[2]);
        assert(spec_read_be2(bytes, p + 1) == spec_read_be2(spec_be2(n), 0));
    } else {
        lemma_be4(n);
        assert(bytes[p + 1] == bytes.subrange(p, p + h.len())[1]);
        assert(bytes[p + 2] == bytes.subrange(p, p + h.len())[2]);
        assert(bytes[p + 3] == bytes.subrange(p, p + h.len())[3]);
        assert(bytes[p + 4] == bytes.subrange(p, p + h.len())[4]);
        assert(spec_read_be4(bytes, p + 1) == spec_read_be4(spec_be4(n), 0));
    }
}

/// The strings of a prefix of `items` pack into a prefix of the packed strings of `items`.
proof fn lemma_packed_prefix(items: Seq<Seq<char>>, k: int)
    requires
        0 <= k <= items.len(),
    ensures
        spec_packed_strings(items.take(k)).is_prefix_of(spec_packed_strings(items)),
    decreases items.len(),
{
    if k == items.len() {
        assert(items.take(k) =~= items);
        assert(spec_packed_strings(items).is_prefix_of(spec_packed_strings(items)));
    } else {
        let init = items.drop_last();
        lemma_packed_prefix(init, k);
        assert(init.take(k) =~= items.take(k));
        let a = spec_packed_strings(items.take(k));
        let b = spec_packed_strings(init);
        let c = spec_packed_strings(items);
        assert(a =~= b.subrange(0, a.len() as int));
        assert(b =~= c.subrange(0, b.len() as int));
        assert(a =~= c.subrange(0, a.len() as int));
    }
}

/// Packed strings standing at `at` are `k` messages without containers, for every `k` up to
/// their count.
proof fn lemma_strings_messages(items: Seq<Seq<char>>, bytes: Seq<u8>, at: int, k: int)
    requires
        spec_msgpack_fits(items),
        0 <= at,
        at + spec_packed_strings(items).len() <= bytes.len(),
        bytes.subrange(at, at + spec_packed_strings(items).len()) == spec_packed_strings(items),
        0 <= k <= items.len(),
    ensures
        spec_scalar_messages_end(bytes, at, k as nat) == Some(at + spec_packed_strings(items.take(k)).len()),
    decreases k,
{
    if k == 0 {
        assert(items.take(0) =~= Seq::<Seq<char>>::empty());
    } else {
        lemma_strings_messages(items, bytes, at, k - 1);
        let t = items.take(k);
        assert(t.drop_last() =~= items.take(k - 1));
        assert(t.last() == items[k - 1]);
        let b = vstd::utf8::encode_utf8(items[k - 1]);
        let h = spec_str_header(b.len());
        let before = spec_packed_strings(items.take(k - 1));
        let p = at + before.len();
        assert(spec_packed_strings(t) == before + h + b);
        lemma_packed_prefix(items, k);
        let all = spec_packed_strings(items);
        let pt = spec_packed_strings(t);
        assert(bytes.subrange(p, p + h.len()) =~= h) by {
            assert forall|i: int| 0 <= i < h.len() implies #[trigger] bytes.subrange(p, p + h.len())[i] == h[i] by {
                assert(bytes[p + i] == bytes.subrange(at, at + all.len())[before.len() + i]);
                assert(all[before.len() + i] == pt[before.len() + i]);
            }
        }
        lemma_str_message(bytes, p, b.len());
    }
}

/// An array of strings that MessagePack can frame, followed by anything, is flat.
pub proof fn lemma_string_array_flat(items: Seq<Seq<char>>, rest: Seq<u8>)
    requires
        spec_msgpack_fits(items),
    ensures
        spec_msgpack_flat(msgpack_string_array(items) + rest),
{
    let n = items.len();
    let h = spec_array_header(n);
    let packed = spec_packed_strings(items);
    let bytes = msgpack_string_array(items) + rest;
    assert(bytes == h + packed + rest);
    assert(bytes.subrange(h.len() as int, (h.len() + packed.len()) as int) =~= packed);
    lemma_strings_messages(items, bytes, h.len() as int, n as int);
    lemma_scalars_are_elements(bytes, h.len() as int, n);
    assert(items.take(n as int) =~= items);
    assert(bytes[0] == h[0]);
    if n <= 15 {
    } else if n <= 0xffff {
        lemma_be2(n);
        assert(bytes[1] == h[1] && bytes[2] == h[2]);
        assert(spec_read_be2(bytes, 1) == spec_read_be2(spec_be2(n), 0));
    } else {
        lemma_be4(n);
        assert(bytes[1] == h[1] && bytes[2] == h[2] && bytes[3] == h[3] && bytes[4] == h[4]);
        assert(spec_read_be4(bytes, 1) == spec_read_be4(spec_be4(n), 0));
    }
}

/// Length of the message at `at` when it holds no array, map or extension and lies within
/// `bytes`.
fn scalar_message_len(bytes: &[u8], at: usize) -> (r: Option<usize>)
    ensures
        match spec_scalar_message_len(bytes@, at as int) {
            Some(l) => r is Some && r.unwrap() == l && at + l <= bytes@.len(),
            None => r is None,
        },
{
    let n = bytes.len();
    if at >= n {
        return None;
    }
    let b = bytes[at];
    let len: u64 = if b <= 0x7f || b >= 0xe0 || b == 0xc0 || b == 0xc2 || b == 0xc3 {
        1
    } else if b == 0xcc || b == 0xd0 {
        2
    } else if b == 0xcd || b == 0xd1 {
        3
    } else if b == 0xce || b == 0xd2 || b == 0xca {
        5
    } else if b == 0xcf || b == 0xd3 || b == 0xcb {
        9
    } else if 0xa0 <= b && b <= 0xbf {
        1 + (b - 0xa0) as u64
    } else if (b == 0xd9 || b == 0xc4) && n - at >= 2 {
        2 + bytes[at + 1] as u64
    } else if (b == 0xda || b == 0xc5) && n - at >= 3 {
        3 + (bytes[at + 1] as u64) * 0x100 + bytes[at + 2] as u64
    } else if (b == 0xdb || b == 0xc6) && n - at >= 5 {
        5 + (((bytes[at + 1] as u64) * 0x100 + bytes[at + 2] as u64) * 0x100 + bytes[at + 3] as u64) * 0x100
            + bytes[at + 4] as u64
    } else {
        return None;
    };
    if len as u128 + at as u128 <= n as u128 {
        Some(len as usize)
    } else {
        None
    }
}

/// End of `count` messages without arrays, maps or extensions from `at`, when they all lie
/// within `bytes`.
fn scalar_messages_end(bytes: &[u8], at: usize, count: u64) -> (r: Option<usize>)
    ensures
        match spec_scalar_messages_end(bytes@, at as int, count as nat) {
            Some(p) => r is Some && r.unwrap() == p,
            None => r is None,
        },
{
    let len = bytes.len();
    let mut i: u64 = 0;
    let mut p: usize = at;
    while i < count
        invariant
            i <= count,
            len == bytes@.len(),
            spec_scalar_messages_end(bytes@, at as int, i as nat) == Some(p as int),
        decreases count - i,
    {
        match scalar_message_len(bytes, p) {
            Some(l) => {
                proof {
                    assert(spec_scalar_messages_end(bytes@, at as int, (i + 1) as nat) == Some(p + l));
                }
                p = p + l;
            },
            None => {
                proof {
                    lemma_messages_end_stops(bytes@, at as int, (i + 1) as nat, count as nat);
                }
                return None;
            },
        }
        i = i + 1;
    }
    Some(p)
}

/// Once some messages don't lie within the bytes, more of them don't either.
proof fn lemma_messages_end_stops(bytes: Seq<u8>, at: int, k: nat, n: nat)
    requires
        k <= n,
        spec_scalar_messages_end(bytes, at, k) is None,
    ensures
        spec_scalar_messages_end(bytes, at, n) is None,
    decreases n - k,
{
    if k < n {
        lemma_messages_end_stops(bytes, at, k + 1, n);
    }
}

/// A message without array, map or extension measures the same as an element.
proof fn lemma_scalar_is_element(bytes: Seq<u8>, at: int)
    requires
        spec_scalar_message_len(bytes, at) is Some,
    ensures
        spec_element_message_len(bytes, at) == spec_scalar_message_len(bytes, at),
{
}

/// Messages without arrays, maps or extensions end where the same count of elements ends.
proof fn lemma_scalars_are_elements(bytes: Seq<u8>, at: int, n: nat)
    requires
        spec_scalar_messages_end(bytes, at, n) is Some,
    ensures
        spec_element_messages_end(bytes, at, n) == spec_scalar_messages_end(bytes, at, n),
    decreases n,
{
    if n > 0 {
        lemma_scalars_are_elements(bytes, at, (n - 1) as nat);
        let p = spec_scalar_messages_end(bytes, at, (n - 1) as nat).unwrap();
        lemma_scalar_is_element(bytes, p);
    }
}

/// Messages from `from` that lie within the bytes end between `from` and the end.
proof fn lemma_scalars_end_within(bytes: Seq<u8>, from: int, n: nat)
    requires
        0 <= from <= bytes.len(),
    ensures
        spec_scalar_messages_end(bytes, from, n) matches Some(e) ==> from <= e <= bytes.len(),
    decreases n,
{
    if n > 0 {
        lemma_scalars_end_within(bytes, from, (n - 1) as nat);
    }
}

/// An element that lies within the bytes ends within them.
proof fn lemma_element_len_within(bytes: Seq<u8>, at: int)
    requires
        0 <= at < bytes.len(),
    ensures
        spec_element_message_len(bytes, at) matches Some(l) ==> 0 <= l && at + l <= bytes.len(),
{
    let b = bytes[at];
    if 0x90 <= b <= 0x9f {
        lemma_scalars_end_within(bytes, at + 1, (b - 0x90) as nat);
    } else if b == 0xdc || b == 0xde {
        if at + 3 <= bytes.len() {
            lemma_scalars_end_within(bytes, at + 3, spec_read_be2(bytes, at + 1) as nat);
            lemma_scalars_end_within(bytes, at + 3, (2 * spec_read_be2(bytes, at + 1)) as nat);
        }
    } else if b == 0xdd || b == 0xdf {
        if at + 5 <= bytes.len() {
            lemma_scalars_end_within(bytes, at + 5, spec_read_be4(bytes, at + 1) as nat);
            lemma_scalars_end_within(bytes, at + 5, (2 * spec_read_be4(bytes, at + 1)) as nat);
        }
    } else if 0x80 <= b <= 0x8f {
        lemma_scalars_end_within(bytes, at + 1, (2 * (b - 0x80)) as nat);
    }
}

/// Length of the message at `at` as [`spec_element_message_len`] measures it.
fn element_message_len(bytes: &[u8], at: usize) -> (r: Option<usize>)
    ensures
        match spec_element_message_len(bytes@, at as int) {
            Some(l) => r is Some && r.unwrap() == l && at + l <= bytes@.len(),
            None => r is None,
        },
{
    let n = bytes.len();
    if at >= n {
        return None;
    }
    let b = bytes[at];
    let end = if 0x90 <= b && b <= 0x9f {
        scalar_messages_end(bytes, at + 1, (b - 0x90) as u64)
    } else if b == 0xdc {
        if n - at >= 3 {
            scalar_messages_end(bytes, at + 3, (bytes[at + 1] as u64) * 0x100 + bytes[at + 2] as u64)
        } else {
            None
        }
    } else if b == 0xdd {
        if n - at >= 5 {
            scalar_messages_end(
                bytes,
                at + 5,
                (((bytes[at + 1] as u64) * 0x100 + bytes[at + 2] as u64) * 0x100 + bytes[at + 3] as u64) * 0x100
                    + bytes[at + 4] as u64,
            )
        } else {
            None
        }
    } else if 0x80 <= b && b <= 0x8f {
        scalar_messages_end(bytes, at + 1, 2 * ((b - 0x80) as u64))
    } else if b == 0xde {
        if n - at >= 3 {
            scalar_messages_end(bytes, at + 3, 2 * ((bytes[at + 1] as u64) * 0x100 + bytes[at + 2] as u64))
        } else {
            None
        }
    } else if b == 0xdf {
        if n - at >= 5 {
            scalar_messages_end(
                bytes,
                at + 5,
                2 * ((((bytes[at + 1] as u64) * 0x100 + bytes[at + 2] as u64) * 0x100 + bytes[at + 3] as u64)
                    * 0x100 + bytes[at + 4] as u64),
            )
        } else {
            None
        }
    } else {
        match scalar_message_len(bytes, at) {
            Some(l) => Some(at + l),
            None => None,
        }
    };
    match end {
        Some(e) => {
            proof {
                lemma_element_len_within(bytes@, at as int);
            }
            Some(e - at)
        },
        None => None,
    }
}

/// End of `count` elements from `at`, when they all lie within `bytes`.
fn element_messages_end(bytes: &[u8], at: usize, count: u64) -> (r: Option<usize>)
    ensures
        match spec_element_messages_end(bytes@, at as int, count as nat) {
            Some(p) => r is Some && r.unwrap() == p,
            None => r is None,
        },
{
    let len = bytes.len();
    let mut i: u64 = 0;
    let mut p: usize = at;
    while i < count
        invariant
            i <= count,
            len == bytes@.len(),
            spec_element_messages_end(bytes@, at as int, i as nat) == Some(p as int),
        decreases count - i,
    {
        match element_message_len(bytes, p) {
            Some(l) => {
                proof {
                    assert(spec_element_messages_end(bytes@, at as int, (i + 1) as nat) == Some(p + l));
                }
                p = p + l;
            },
            None => {
                proof {
                    lemma_elements_end_stops(bytes@, at as int, (i + 1) as nat, count as nat);
                }
                return None;
            },
        }
        i = i + 1;
    }
    Some(p)
}

/// Once some elements don't lie within the bytes, more of them don't either.
proof fn lemma_elements_end_stops(bytes: Seq<u8>, at: int, k: nat, n: nat)
    requires
        k <= n,
        spec_element_messages_end(bytes, at, k) is None,
    ensures
        spec_element_messages_end(bytes, at, n) is None,
    decreases n - k,
{
    if k < n {
        lemma_elements_end_stops(bytes, at, k + 1, n);
    }
}

/// Check that the message at the front of `bytes` is flat and complete; see
/// [`spec_msgpack_flat`].
pub fn msgpack_flat(bytes: &[u8]) -> (b: bool)
    ensures
        b == spec_msgpack_flat(bytes@),
{
    let n = bytes.len();
    if n == 0 {
        return true;
    }
    let b = bytes[0];
    if 0x90 <= b && b <= 0x9f {
        element_messages_end(bytes, 1, (b - 0x90) as u64).is_some()
    } else if b == 0xdc {
        n >= 3 && element_messages_end(bytes, 3, (bytes[1] as u64) * 0x100 + bytes[2] as u64).is_some()
    } else if b == 0xdd {
        n >= 5 && element_messages_end(
            bytes,
            5,
            (((bytes[1] as u64) * 0x100 + bytes[2] as u64) * 0x100 + bytes[3] as u64) * 0x100 + bytes[4] as u64,
        ).is_some()
    } else if 0x80 <= b && b <= 0x8f {
        element_messages_end(bytes, 1, 2 * ((b - 0x80) as u64)).is_some()
    } else if b == 0xde {
        n >= 3 && element_messages_end(bytes, 3, 2 * ((bytes[1] as u64) * 0x100 + bytes[2] as u64)).is_some()
    } else if b == 0xdf {
        n >= 5 && element_messages_end(
            bytes,
            5,
            2 * ((((bytes[1] as u64) * 0x100 + bytes[2] as u64) * 0x100 + bytes[3] as u64) * 0x100 + bytes[4] as u64),
        ).is_some()
    } else {
        scalar_message_len(bytes, 0).is_some()
    }
}

/// Model of unpacked array elements.
pub open spec fn spec_elements_view(o: Option<Vec<Option<String>>>) -> Option<Seq<Option<Seq<char>>>> {
    match o {
        Some(v) => Some(v@.map_values(|e: Option<String>| match e {
            Some(s) => Some(s@),
            None => None,
        })),
        None => None,
    }
}

/// Elements of an array of strings, as an unpacking gives them.
pub open spec fn spec_all_strings(items: Seq<Seq<char>>) -> Seq<Option<Seq<char>>> {
    items.map_values(|s: Seq<char>| Some(s))
}

/// Packs `items` as a MessagePack array of strings with msgpacker's `Message::pack` into a
/// new vector. The contract claims that the packing fails exactly when the array or one of
/// its strings is longer than 32 bits can frame, and that its bytes are the named result
/// `msgpack_string_array` of the strings.
#[verifier::external_body]
pub(crate) fn pack_string_array(items: &Vec<String>) -> (r: Result<Vec<u8>, ()>)
    ensures
        r is Ok <==> spec_msgpack_fits(strings_view(items@)),
        r is Ok ==> r.unwrap()@ == msgpack_string_array(strings_view(items@)),
{
    let message = Message::Array(items.iter().map(|s| Message::String(s.clone())).collect());
    let mut out: Vec<u8> = Vec::new();
    match message.pack(&mut out) {
        Ok(_) => Ok(out),
        Err(_) => Err(()),
    }
}

/// Unpacks one message with msgpacker's `Message::unpack` from the front of `bytes`,
/// returning the bytes after it and, if it is an array, its elements (each string kept,
/// other elements `None`). The bytes must be flat (see [`spec_msgpack_flat`]): the crate
/// then recurses at most twice, meets no extension (whose timestamps can panic in
/// `Duration::new`), and allocates no more than the bytes hold. The contract claims that the
/// result is the named result `msgpack_unpack` of the bytes, that no more bytes are consumed
/// than given, and that an array of strings packed as `msgpack_string_array` unpacks back to
/// its strings, whatever follows it.
#[verifier::external_body]
pub(crate) fn unpack_message<'a>(bytes: &'a [u8]) -> (r: Option<(&'a [u8], Option<Vec<Option<String>>>)>)
    requires
        spec_msgpack_flat(bytes@),
    ensures
        match msgpack_unpack(bytes@) {
            None => r is None,
            Some((n, elements)) => {
                &&& r is Some
                &&& n <= bytes@.len()
                &&& r.unwrap().0@ == bytes@.skip(n as int)
                &&& spec_elements_view(r.unwrap().1) == elements
            },
        },
        forall|items: Seq<Seq<char>>, rest: Seq<u8>|
            spec_msgpack_fits(items) && bytes@ == #[trigger] (msgpack_string_array(items) + rest) ==> {
                &&& r is Some
                &&& r.unwrap().0@ == rest
                &&& spec_elements_view(r.unwrap().1) == Some(spec_all_strings(items))
            },
{
    let mut reader = bytes;
    let message = Message::unpack(&mut reader).ok()?;
    let elements = match message {
        Message::Array(a) => Some(a.into_iter().map(|m| match m {
            Message::String(s) => Some(s),
            _ => None,
        }).collect()),
        _ => None,
    };
    Some((reader, elements))
}

} // verus!
