//! Big-endian integers and the order of byte strings.
use vstd::prelude::*;

verus! {

/// The `width` low bytes of `value`, most significant first.
pub open spec fn be_bytes(value: nat, width: nat) -> Seq<u8>
    decreases width,
{
    if width == 0 {
        seq![]
    } else {
        be_bytes(value / 256, (width - 1) as nat).push((value % 256) as u8)
    }
}

/// The number that `bytes` stand for, most significant first.
pub open spec fn be_value(bytes: Seq<u8>) -> nat
    decreases bytes.len(),
{
    if bytes.len() == 0 {
        0
    } else {
        be_value(bytes.drop_last()) * 256 + bytes.last() as nat
    }
}

/// 256 to the power of `width`.
pub open spec fn be_limit(width: nat) -> nat
    decreases width,
{
    if width == 0 {
        1
    } else {
        be_limit((width - 1) as nat) * 256
    }
}

/// Byte strings are ordered by their first difference; a proper prefix is smaller.
pub open spec fn bytes_less(a: Seq<u8>, b: Seq<u8>) -> bool
    decreases a.len(),
{
    if b.len() == 0 {
        false
    } else if a.len() == 0 {
        true
    } else if a[0] != b[0] {
        a[0] < b[0]
    } else {
        bytes_less(a.skip(1), b.skip(1))
    }
}

/// Big-endian bytes have the given width and stand for the number, where it fits.
pub proof fn lemma_be_roundtrip(value: nat, width: nat)
    ensures
        be_bytes(value, width).len() == width,
        value < be_limit(width) ==> be_value(be_bytes(value, width)) == value,
    decreases width,
{
    if width > 0 {
        lemma_be_roundtrip(value / 256, (width - 1) as nat);
        assert(be_bytes(value, width).drop_last() =~= be_bytes(value / 256, (width - 1) as nat));
    }
}

/// Every byte string is the big-endian form of its number.
pub proof fn lemma_be_inverse(bytes: Seq<u8>)
    ensures
        be_value(bytes) < be_limit(bytes.len()),
        be_bytes(be_value(bytes), bytes.len()) == bytes,
    decreases bytes.len(),
{
    if bytes.len() == 0 {
        assert(be_bytes(0, 0) =~= bytes);
    } else {
        let init = bytes.drop_last();
        lemma_be_inverse(init);
        let value = be_value(bytes);
        assert(value / 256 == be_value(init) && value % 256 == bytes.last() as nat);
        assert(be_bytes(value, bytes.len()) =~= be_bytes(be_value(init), init.len()).push(
            bytes.last(),
        ));
        assert(init.push(bytes.last()) =~= bytes);
    }
}

/// Byte strings compare like their rests behind a common start.
pub proof fn lemma_bytes_less_prefix(start: Seq<u8>, a: Seq<u8>, b: Seq<u8>)
    ensures
        bytes_less(start + a, start + b) == bytes_less(a, b),
    decreases start.len(),
{
    if start.len() == 0 {
        assert(start + a =~= a);
        assert(start + b =~= b);
    } else {
        let rest = start.skip(1);
        assert((start + a).skip(1) =~= rest + a);
        assert((start + b).skip(1) =~= rest + b);
        lemma_bytes_less_prefix(rest, a, b);
    }
}

/// A difference in the starts of two byte strings of one length decides their order.
pub proof fn lemma_bytes_less_extend(a: Seq<u8>, b: Seq<u8>, x: Seq<u8>, y: Seq<u8>)
    requires
        a.len() == b.len(),
        bytes_less(a, b),
    ensures
        bytes_less(a + x, b + y),
    decreases a.len(),
{
    assert((a + x)[0] == a[0]);
    assert((b + y)[0] == b[0]);
    if a[0] == b[0] {
        assert((a + x).skip(1) =~= a.skip(1) + x);
        assert((b + y).skip(1) =~= b.skip(1) + y);
        lemma_bytes_less_extend(a.skip(1), b.skip(1), x, y);
    }
}

/// Big-endian bytes of one width are ordered like their numbers.
pub proof fn lemma_be_order(a: nat, b: nat, width: nat)
    requires
        a < b < be_limit(width),
    ensures
        bytes_less(be_bytes(a, width), be_bytes(b, width)),
    decreases width,
{
    let init = (width - 1) as nat;
    lemma_be_roundtrip(a / 256, init);
    lemma_be_roundtrip(b / 256, init);
    let x = seq![(a % 256) as u8];
    let y = seq![(b % 256) as u8];
    assert(be_bytes(a, width) =~= be_bytes(a / 256, init) + x);
    assert(be_bytes(b, width) =~= be_bytes(b / 256, init) + y);
    if a / 256 < b / 256 {
        lemma_be_order(a / 256, b / 256, init);
        lemma_bytes_less_extend(be_bytes(a / 256, init), be_bytes(b / 256, init), x, y);
    } else {
        lemma_bytes_less_prefix(be_bytes(a / 256, init), x, y);
        assert(bytes_less(x, y));
    }
}

/// The order of byte strings is total and strict.
pub proof fn lemma_bytes_less_total(a: Seq<u8>, b: Seq<u8>)
    ensures
        bytes_less(a, b) || bytes_less(b, a) || a == b,
        !(bytes_less(a, b) && bytes_less(b, a)),
        !bytes_less(a, a),
    decreases a.len(),
{
    if a.len() > 0 {
        lemma_bytes_less_total(a.skip(1), a.skip(1));
    }
    if a.len() == 0 {
        if b.len() == 0 {
            assert(a =~= b);
        }
    } else if b.len() > 0 && a[0] == b[0] {
        lemma_bytes_less_total(a.skip(1), b.skip(1));
        if a.skip(1) == b.skip(1) {
            assert(a =~= seq![a[0]] + a.skip(1));
            assert(b =~= seq![b[0]] + b.skip(1));
        }
    }
}

/// The order of byte strings is transitive.
pub proof fn lemma_bytes_less_transitive(a: Seq<u8>, b: Seq<u8>, c: Seq<u8>)
    requires
        bytes_less(a, b),
        bytes_less(b, c),
    ensures
        bytes_less(a, c),
    decreases a.len(),
{
    if a.len() > 0 && a[0] == b[0] && b[0] == c[0] {
        lemma_bytes_less_transitive(a.skip(1), b.skip(1), c.skip(1));
    }
}

/// Whether the first byte string stands before the second.
pub fn is_bytes_less(a: &[u8], b: &[u8]) -> (less: bool)
    ensures
        less == bytes_less(a@, b@),
{
    let mut i: usize = 0;
    assert(a@.skip(0) =~= a@);
    assert(b@.skip(0) =~= b@);
    while i < a.len() && i < b.len() && a[i] == b[i]
        invariant
            i <= a@.len(),
            i <= b@.len(),
            bytes_less(a@, b@) == bytes_less(a@.skip(i as int), b@.skip(i as int)),
        decreases a@.len() - i,
    {
        assert(a@.skip(i as int).skip(1) =~= a@.skip(i + 1));
        assert(b@.skip(i as int).skip(1) =~= b@.skip(i + 1));
        i += 1;
    }
    if i == b.len() {
        false
    } else if i == a.len() {
        true
    } else {
        a[i] < b[i]
    }
}

/// Whether `bytes` starts with `start`.
pub open spec fn starts_with(bytes: Seq<u8>, start: Seq<u8>) -> bool {
    start.len() <= bytes.len() && bytes.take(start.len() as int) == start
}

/// Whether `bytes` starts with `start`.
pub fn has_prefix(bytes: &[u8], start: &[u8]) -> (answer: bool)
    ensures
        answer == starts_with(bytes@, start@),
{
    if start.len() > bytes.len() {
        return false;
    }
    let mut i: usize = 0;
    while i < start.len()
        invariant
            i <= start@.len() <= bytes@.len(),
            forall|k: int| 0 <= k < i ==> bytes@[k] == start@[k],
        decreases start@.len() - i,
    {
        if bytes[i] != start[i] {
            assert(bytes@.take(start@.len() as int)[i as int] != start@[i as int]);
            return false;
        }
        i += 1;
    }
    assert(bytes@.take(start@.len() as int) =~= start@);
    true
}

/// Appends the bytes of a slice.
pub fn push_all(buf: &mut Vec<u8>, bytes: &[u8])
    ensures
        final(buf)@ == old(buf)@ + bytes@,
{
    let ghost start = buf@;
    let mut i: usize = 0;
    assert(start + bytes@.take(0) =~= start);
    while i < bytes.len()
        invariant
            i <= bytes@.len(),
            buf@ == start + bytes@.take(i as int),
        decreases bytes@.len() - i,
    {
        assert(start + bytes@.take(i + 1) =~= (start + bytes@.take(i as int)).push(
            bytes@[i as int],
        ));
        buf.push(bytes[i]);
        i += 1;
    }
    assert(bytes@.take(i as int) =~= bytes@);
}

/// The bytes of a slice as a vector.
pub fn bytes_of(bytes: &[u8]) -> (copy: Vec<u8>)
    ensures
        copy@ == bytes@,
{
    let mut copy: Vec<u8> = Vec::new();
    push_all(&mut copy, bytes);
    assert(copy@ =~= bytes@);
    copy
}

/// Appends the low `width` bytes of a number, most significant first.
pub fn push_be(buf: &mut Vec<u8>, value: u64, width: usize)
    ensures
        final(buf)@ == old(buf)@ + be_bytes(value as nat, width as nat),
    decreases width,
{
    if width > 0 {
        push_be(buf, value / 256, width - 1);
        buf.push((value % 256) as u8);
        assert(buf@ =~= old(buf)@ + be_bytes(value as nat, width as nat));
    } else {
        assert(buf@ =~= old(buf)@ + be_bytes(value as nat, 0));
    }
}

/// The numbers that two, four and eight bytes can hold.
pub proof fn lemma_be_widths()
    ensures
        be_limit(2) == 0x1_0000,
        be_limit(4) == 0x1_0000_0000,
        be_limit(8) == 0x1_0000_0000_0000_0000,
{
    reveal_with_fuel(be_limit, 9);
}

proof fn lemma_be_value_prefix(bytes: Seq<u8>, cut: int)
    requires
        0 <= cut <= bytes.len(),
    ensures
        be_value(bytes.take(cut)) <= be_value(bytes),
    decreases bytes.len(),
{
    if cut == bytes.len() {
        assert(bytes.take(cut) =~= bytes);
    } else {
        assert(bytes.drop_last().take(cut) =~= bytes.take(cut));
        lemma_be_value_prefix(bytes.drop_last(), cut);
    }
}

/// The number that at most eight bytes stand for, most significant first.
pub fn read_be(bytes: &[u8]) -> (value: u64)
    requires
        bytes@.len() <= 8,
    ensures
        value == be_value(bytes@),
        bytes@.len() == 2 ==> value < 0x1_0000,
        bytes@.len() == 4 ==> value < 0x1_0000_0000,
{
    let mut value: u64 = 0;
    let mut i: usize = 0;
    proof {
        lemma_be_widths();
        lemma_be_inverse(bytes@);
        assert(be_limit(bytes@.len()) <= be_limit(8)) by {
            reveal_with_fuel(be_limit, 9);
        }
    }
    while i < bytes.len()
        invariant
            i <= bytes@.len(),
            value == be_value(bytes@.take(i as int)),
            be_value(bytes@) < 0x1_0000_0000_0000_0000,
        decreases bytes@.len() - i,
    {
        proof {
            lemma_be_value_prefix(bytes@, i + 1);
            assert(bytes@.take(i + 1).drop_last() =~= bytes@.take(i as int));
        }
        value = value * 256 + bytes[i] as u64;
        i += 1;
    }
    assert(bytes@.take(i as int) =~= bytes@);
    value
}

/// The first key that comes behind every key with a prefix, where there is one.
pub open spec fn next_prefix(prefix: Seq<u8>) -> Option<Seq<u8>>
    decreases prefix.len(),
{
    if prefix.len() == 0 {
        None
    } else if prefix.last() < 255 {
        Some(prefix.drop_last().push((prefix.last() + 1) as u8))
    } else {
        next_prefix(prefix.drop_last())
    }
}

/// The first key that comes behind every key with a prefix.
pub fn next_key_prefix(prefix: &[u8]) -> (next: Option<Vec<u8>>)
    ensures
        match next {
            Some(bytes) => next_prefix(prefix@) == Some(bytes@),
            None => next_prefix(prefix@) is None,
        },
{
    let mut end: usize = prefix.len();
    assert(prefix@.take(end as int) =~= prefix@);
    while end > 0
        invariant
            end <= prefix@.len(),
            next_prefix(prefix@) == next_prefix(prefix@.take(end as int)),
        decreases end,
    {
        assert(prefix@.take(end as int).drop_last() =~= prefix@.take(end - 1));
        let last = prefix[end - 1];
        if last < 255 {
            let mut bytes = bytes_of(vstd::slice::slice_subrange(prefix, 0, end - 1));
            assert(bytes@ =~= prefix@.take(end - 1));
            bytes.push(last + 1);
            return Some(bytes);
        }
        end -= 1;
    }
    None
}

/// Every key with a prefix comes before the key behind the prefix, and that key comes before
/// every greater key without the prefix.
pub proof fn law_next_prefix_bounds(prefix: Seq<u8>, key: Seq<u8>)
    requires
        next_prefix(prefix) is Some,
    ensures
        starts_with(key, prefix) ==> bytes_less(key, next_prefix(prefix)->0) && !bytes_less(
            key,
            prefix,
        ),
        !starts_with(key, prefix) && !bytes_less(key, prefix) ==> !bytes_less(
            key,
            next_prefix(prefix)->0,
        ),
    decreases prefix.len(),
{
    let init = prefix.drop_last();
    let last = prefix.last();
    if last < 255 {
        let next = init.push((last + 1) as u8);
        lemma_prefix_bound(init, last, key);
        assert(prefix =~= init.push(last));
    } else {
        law_next_prefix_bounds(init, key);
        let next = next_prefix(init)->0;
        assert(prefix =~= init.push(last));
        lemma_prefix_below(init, last, key);
        if starts_with(key, prefix) {
            assert(key.take(init.len() as int) =~= init) by {
                assert(key.take(prefix.len() as int).take(init.len() as int) =~= key.take(
                    init.len() as int,
                ));
                assert(prefix.take(init.len() as int) =~= init);
            }
        }
    }
}

proof fn lemma_prefix_bound(init: Seq<u8>, last: u8, key: Seq<u8>)
    requires
        last < 255,
    ensures
        starts_with(key, init.push(last)) ==> bytes_less(key, init.push((last + 1) as u8))
            && !bytes_less(key, init.push(last)),
        !starts_with(key, init.push(last)) && !bytes_less(key, init.push(last)) ==> !bytes_less(
            key,
            init.push((last + 1) as u8),
        ),
    decreases init.len(),
{
    let low = init.push(last);
    let high = init.push((last + 1) as u8);
    if init.len() == 0 {
        if key.len() > 0 {
            if starts_with(key, low) {
                assert(key.take(1)[0] == low[0]);
                assert(key[0] == last);
            }
            if key[0] == last {
                assert(key.take(1) =~= low);
            }
            reveal_with_fuel(bytes_less, 2);
        }
    } else if key.len() > 0 {
        let rest = init.skip(1);
        lemma_prefix_bound(rest, last, key.skip(1));
        assert(low.skip(1) =~= rest.push(last));
        assert(high.skip(1) =~= rest.push((last + 1) as u8));
        if starts_with(key, low) {
            assert(key.take(low.len() as int)[0] == low[0]);
            assert(key.skip(1).take(low.len() - 1) =~= key.take(low.len() as int).skip(1));
        }
        if key[0] == low[0] && starts_with(key.skip(1), rest.push(last)) {
            assert(key.take(low.len() as int) =~= low) by {
                assert forall|i: int| 0 <= i < low.len() implies key[i] == low[i] by {
                    if i > 0 {
                        assert(key.skip(1).take(low.len() - 1)[i - 1] == rest.push(last)[i - 1]);
                        assert(low.skip(1)[i - 1] == low[i]);
                    }
                }
            }
        }
    }
}

proof fn lemma_prefix_below(init: Seq<u8>, last: u8, key: Seq<u8>)
    requires
        last == 255,
    ensures
        starts_with(key, init.push(last)) ==> !bytes_less(key, init.push(last)),
        !starts_with(key, init.push(last)) && !bytes_less(key, init.push(last)) ==> !starts_with(
            key,
            init,
        ) && !bytes_less(key, init),
    decreases init.len(),
{
    let low = init.push(last);
    if init.len() == 0 {
        if key.len() > 0 {
            if starts_with(key, low) {
                assert(key.take(1)[0] == low[0]);
            }
            if key[0] == last {
                assert(key.take(1) =~= low);
            }
            reveal_with_fuel(bytes_less, 2);
        }
    } else if key.len() > 0 {
        let rest = init.skip(1);
        lemma_prefix_below(rest, last, key.skip(1));
        assert(low.skip(1) =~= rest.push(last));
        if starts_with(key, low) {
            assert(key.take(low.len() as int)[0] == low[0]);
            assert(key.skip(1).take(low.len() - 1) =~= key.take(low.len() as int).skip(1));
        }
        if starts_with(key, init) {
            assert(key.take(init.len() as int)[0] == init[0]);
            assert(key.skip(1).take(init.len() - 1) =~= key.take(init.len() as int).skip(1));
        }
        if key[0] == low[0] && starts_with(key.skip(1), rest.push(last)) {
            assert(key.take(low.len() as int) =~= low) by {
                assert forall|i: int| 0 <= i < low.len() implies key[i] == low[i] by {
                    if i > 0 {
                        assert(key.skip(1).take(low.len() - 1)[i - 1] == rest.push(last)[i - 1]);
                        assert(low.skip(1)[i - 1] == low[i]);
                    }
                }
            }
        }
    }
}

} // verus!
