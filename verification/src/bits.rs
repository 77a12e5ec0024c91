//! Big-endian bit streams over bytes.
use bitstream_io::{BigEndian, BitRead, BitReader, BitWrite, BitWriter};
use vstd::prelude::*;

verus! {

/// Bit `i` of a byte, counted from the most significant one.
pub open spec fn bit_of(b: u8, i: int) -> bool {
    (b as int / pow2(7 - i)) % 2 == 1
}

/// Two to the power of `n`.
pub open spec fn pow2(n: int) -> int
    decreases n,
{
    if n <= 0 {
        1
    } else {
        2 * pow2(n - 1)
    }
}

/// The bits of all bytes, the most significant bit of each byte first.
pub open spec fn bits_of(data: Seq<u8>) -> Seq<bool> {
    Seq::new(8 * data.len(), |p: int| bit_of(data[p / 8], p % 8))
}

/// The number that bits write, the most significant bit first.
pub open spec fn bits_value(bits: Seq<bool>) -> nat
    decreases bits.len(),
{
    if bits.len() == 0 {
        0
    } else {
        2 * bits_value(bits.drop_last()) + if bits.last() {
            1nat
        } else {
            0nat
        }
    }
}

/// The `n` bits that write `value`, the most significant bit first.
pub open spec fn to_bits(value: nat, n: nat) -> Seq<bool>
    decreases n,
{
    if n == 0 {
        Seq::empty()
    } else {
        to_bits(value / 2, (n - 1) as nat).push(value % 2 == 1)
    }
}

/// The bits without those of a last partial byte.
pub open spec fn whole_bytes(bits: Seq<bool>) -> Seq<bool> {
    bits.take((bits.len() / 8 * 8) as int)
}

/// The number that the `n` bits at `pos` write.
pub open spec fn field(bits: Seq<bool>, pos: int, n: int) -> nat {
    bits_value(bits.subrange(pos, pos + n))
}

pub proof fn lemma_to_bits(value: nat, n: nat)
    ensures
        to_bits(value, n).len() == n,
        value < pow2(n as int) ==> bits_value(to_bits(value, n)) == value,
    decreases n,
{
    if n > 0 {
        lemma_to_bits(value / 2, (n - 1) as nat);
        let b = to_bits(value, n);
        assert(b.drop_last() =~= to_bits(value / 2, (n - 1) as nat));
        assert(pow2(n as int) == 2 * pow2(n - 1));
    }
}

pub proof fn lemma_bits_value(bits: Seq<bool>)
    ensures
        bits_value(bits) < pow2(bits.len() as int),
    decreases bits.len(),
{
    if bits.len() > 0 {
        lemma_bits_value(bits.drop_last());
    }
}

pub proof fn lemma_pow2_values()
    ensures
        pow2(0) == 1,
        pow2(1) == 2,
        pow2(6) == 64,
        pow2(8) == 256,
        pow2(10) == 1024,
        pow2(11) == 2048,
        pow2(12) == 4096,
        pow2(16) == 65536,
{
    reveal_with_fuel(pow2, 17);
}

/// Calls `bitstream_io::BitReader`'s `skip` for `pos` bits and then `read_var` for `n` bits, in
/// big-endian order, on the given bytes. It claims that this yields the number that the `n` bits
/// at `pos` write where the bytes hold all of these bits, and fails otherwise.
#[verifier::external_body]
pub(crate) fn read_bits(data: &[u8], pos: u32, n: u32) -> (r: Option<u16>)
    requires
        0 < n <= 16,
    ensures
        r is Some <==> pos + n <= 8 * data@.len(),
        r matches Some(v) ==> v == field(bits_of(data@), pos as int, n as int),
{
    let mut reader = BitReader::endian(std::io::Cursor::new(data), BigEndian);
    match reader.skip(pos) {
        Ok(()) => reader.read_var::<u16>(n).ok(),
        Err(_) => None,
    }
}

/// A `bitstream_io::BitWriter` in big-endian order that fills a vector of bytes.
#[verifier::external_body]
pub struct WordWriter {
    inner: BitWriter<Vec<u8>, BigEndian>,
}

/// The bits that were written into a writer so far.
pub uninterp spec fn written(w: WordWriter) -> Seq<bool>;

/// Calls `bitstream_io::BitWriter::endian` on an empty vector. It claims that nothing is written
/// yet.
#[verifier::external_body]
pub(crate) fn new_writer() -> (r: WordWriter)
    ensures
        written(r) == Seq::<bool>::empty(),
{
    WordWriter { inner: BitWriter::endian(Vec::new(), BigEndian) }
}

/// Calls `bitstream_io::BitWriter`'s `write_var`. It claims that a value that fits in `n` bits is
/// appended as `n` bits, and that one that does not fit is refused with nothing written: a
/// vector itself never refuses a byte.
#[verifier::external_body]
pub(crate) fn write_bits(w: &mut WordWriter, n: u32, value: u16) -> (r: bool)
    requires
        0 < n <= 16,
    ensures
        r == (value < pow2(n as int)),
        r ==> written(*final(w)) == written(*old(w)) + to_bits(value as nat, n as nat),
        !r ==> written(*final(w)) == written(*old(w)),
{
    w.inner.write_var(n, value).is_ok()
}

/// Calls `bitstream_io::BitWriter`'s `byte_aligned`. It claims that this tells whether the
/// written bits make up whole bytes.
#[verifier::external_body]
pub(crate) fn byte_aligned(w: &WordWriter) -> (r: bool)
    ensures
        r == (written(*w).len() % 8 == 0),
{
    w.inner.byte_aligned()
}

/// Calls `bitstream_io::BitWriter::into_writer`. It claims that the vector holds the whole bytes
/// that were written, and that the bits of a last partial byte are dropped.
#[verifier::external_body]
pub(crate) fn into_bytes(w: WordWriter) -> (r: Vec<u8>)
    ensures
        bits_of(r@) == whole_bytes(written(w)),
{
    w.inner.into_writer()
}

/// The bits of fields of given widths, up to the first field whose value does not fit.
pub open spec fn fields_bits(fields: Seq<(u32, u16)>) -> Seq<bool>
    decreases fields.len(),
{
    if fields.len() == 0 || fields[0].1 >= pow2(fields[0].0 as int) {
        Seq::empty()
    } else {
        to_bits(fields[0].1 as nat, fields[0].0 as nat) + fields_bits(fields.drop_first())
    }
}

/// Whether every value fits in the width of its field.
pub open spec fn fields_fit(fields: Seq<(u32, u16)>) -> bool {
    forall|i: int| 0 <= i < fields.len() ==> (#[trigger] fields[i]).1 < pow2(fields[i].0 as int)
}

/// The bits with as many ones behind them as the last byte lacks.
pub open spec fn aligned_with_ones(bits: Seq<bool>) -> Seq<bool> {
    bits + Seq::new(((8 - bits.len() % 8) % 8) as nat, |i: int| true)
}

/// Writes fields of given widths and pads the last byte with ones. A value that does not fit in
/// its field ends the writing: the whole bytes of what was written before it are left.
pub fn write_fields(fields: &Vec<(u32, u16)>) -> (r: (Vec<u8>, bool))
    requires
        forall|i: int| 0 <= i < fields@.len() ==> 0 < (#[trigger] fields@[i]).0 <= 16,
    ensures
        r.1 == fields_fit(fields@),
        r.1 ==> bits_of(r.0@) == aligned_with_ones(fields_bits(fields@)),
        !r.1 ==> bits_of(r.0@) == whole_bytes(fields_bits(fields@)),
{
    let mut w = new_writer();
    let mut i: usize = 0;
    assert(fields@.skip(0) =~= fields@);
    assert(Seq::<bool>::empty() + fields_bits(fields@) =~= fields_bits(fields@));
    while i < fields.len()
        invariant
            i <= fields@.len(),
            forall|j: int| 0 <= j < fields@.len() ==> 0 < (#[trigger] fields@[j]).0 <= 16,
            forall|j: int| 0 <= j < i ==> (#[trigger] fields@[j]).1 < pow2(fields@[j].0 as int),
            fields_bits(fields@) == written(w) + fields_bits(fields@.skip(i as int)),
        decreases fields@.len() - i,
    {
        let (n, value) = fields[i];
        let ghost before = written(w);
        proof {
            assert(fields@.skip(i as int)[0] == (n, value));
            assert(fields@.skip(i as int).drop_first() =~= fields@.skip(i + 1));
        }
        let ok: bool = write_bits(&mut w, n, value);
        if !ok {
            proof {
                assert(fields_bits(fields@.skip(i as int)) =~= Seq::<bool>::empty());
                assert(fields_bits(fields@) =~= written(w));
                assert(fields@[i as int].1 >= pow2(fields@[i as int].0 as int));
            }
            return (into_bytes(w), false);
        }
        proof {
            assert(before + (to_bits(value as nat, n as nat) + fields_bits(fields@.skip(i + 1)))
                =~= written(w) + fields_bits(fields@.skip(i + 1)));
        }
        i += 1;
    }
    let ghost all = written(w);
    proof {
        assert(fields_bits(fields@.skip(i as int)) =~= Seq::<bool>::empty());
        assert(fields_bits(fields@) =~= all);
        assert(all + Seq::new(0nat, |k: int| true) =~= all);
    }
    let mut pad: usize = 0;
    while !byte_aligned(&w)
        invariant
            pad < 8,
            written(w) == all + Seq::new(pad as nat, |k: int| true),
            pad <= (8 - all.len() % 8) % 8,
        decreases 8 - pad,
    {
        proof {
            lemma_pow2_values();
            lemma_to_bits(1, 1);
            reveal_with_fuel(to_bits, 2);
            assert(to_bits(1, 1) =~= seq![true]);
            assert((all.len() + pad) % 8 != 0);
        }
        let _ = write_bits(&mut w, 1, 1);
        pad += 1;
        assert(written(w) =~= all + Seq::new(pad as nat, |k: int| true));
    }
    proof {
        assert((all.len() + pad) % 8 == 0);
        assert(pad == (8 - all.len() % 8) % 8);
        assert(written(w).len() / 8 * 8 == written(w).len());
        assert(written(w).take(written(w).len() as int) =~= written(w));
    }
    (into_bytes(w), true)
}

/// How many bits the fields take.
pub open spec fn width(fields: Seq<(u32, u16)>) -> int
    decreases fields.len(),
{
    if fields.len() == 0 {
        0
    } else {
        fields[0].0 + width(fields.drop_first())
    }
}

/// The bits of fields that fit, followed by the bits of others.
pub proof fn lemma_fields_add(a: Seq<(u32, u16)>, b: Seq<(u32, u16)>)
    requires
        fields_fit(a),
    ensures
        fields_bits(a + b) == fields_bits(a) + fields_bits(b),
        fields_bits(a).len() == width(a),
    decreases a.len(),
{
    if a.len() == 0 {
        assert(a + b =~= b);
        assert(fields_bits(a) + fields_bits(b) =~= fields_bits(b));
    } else {
        let t = a.drop_first();
        assert forall|i: int| 0 <= i < t.len() implies (#[trigger] t[i]).1 < pow2(
            t[i].0 as int,
        ) by {
            assert(t[i] == a[i + 1]);
        }
        assert(a[0].1 < pow2(a[0].0 as int));
        lemma_fields_add(t, b);
        assert((a + b).drop_first() =~= t + b);
        assert((a + b)[0] == a[0]);
        lemma_to_bits(a[0].1 as nat, a[0].0 as nat);
        assert(fields_bits(a + b) =~= fields_bits(a) + fields_bits(b));
    }
}

/// A field that was written stands behind the fields before it and reads back as its value.
pub proof fn lemma_field_at(fields: Seq<(u32, u16)>, k: int)
    requires
        fields_fit(fields),
        0 <= k < fields.len(),
    ensures
        0 <= width(fields.take(k)),
        width(fields.take(k)) + fields[k].0 <= fields_bits(fields).len(),
        field(fields_bits(fields), width(fields.take(k)), fields[k].0 as int) == fields[k].1,
{
    let head = fields.take(k);
    let tail = fields.skip(k);
    assert(fields =~= head + tail);
    assert forall|i: int| 0 <= i < head.len() implies (#[trigger] head[i]).1 < pow2(
        head[i].0 as int,
    ) by {
        assert(head[i] == fields[i]);
    }
    lemma_fields_add(head, tail);
    assert(tail[0] == fields[k]);
    let word = to_bits(fields[k].1 as nat, fields[k].0 as nat);
    lemma_to_bits(fields[k].1 as nat, fields[k].0 as nat);
    let at = width(head);
    assert(fields_bits(fields).subrange(at, at + fields[k].0) =~= word);
}

} // verus!
