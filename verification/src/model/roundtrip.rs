//! What a GGUF file written by the builder reads back as.
use vstd::prelude::*;

use crate::tensor::dtype::DType;
use crate::tensor::shape::{dims_product, prefix_products_fit};
use vstd::utf8::{encode_utf8, encode_utf8_decode_utf8, encode_utf8_valid_utf8};

use crate::model::gguf::{
    data_bytes, data_offset, dims_bytes, ggml_tag, info_record, infos_bytes, spec_dims,
    spec_infos, spec_tensor_info, tensor_byte_size, TensorEntry, TensorInfoModel,
    lemma_data_prefix_len, entries_bytes, align32, header_bytes, lemma_align32, spec_alignment,
    spec_build, spec_parse_gguf, string_cursor, FileModel, GGUF_MAGIC, spec_finish, spec_body, spec_tail, align_up, spec_entries, spec_string, spec_tagged_value, spec_u32, spec_u64,
    string_record, u32_le, u64_le, value_record, MetadataModel, ParseFailure, ValueModel,
};

verus! {

/// The bytes `r` stand in `b` starting at position `p`.
pub open spec fn holds_at(b: Seq<u8>, p: int, r: Seq<u8>) -> bool {
    0 <= p && p + r.len() <= b.len() && b.subrange(p, p + r.len()) == r
}

proof fn lemma_holds_split(b: Seq<u8>, p: int, r1: Seq<u8>, r2: Seq<u8>)
    requires
        holds_at(b, p, r1 + r2),
    ensures
        holds_at(b, p, r1),
        holds_at(b, p + r1.len(), r2),
{
    let w = b.subrange(p, p + r1.len() + r2.len());
    assert forall|i: int| 0 <= i < r1.len() implies b.subrange(p, p + r1.len())[i] == r1[i] by {
        assert(w[i] == (r1 + r2)[i]);
    }
    assert(b.subrange(p, p + r1.len()) =~= r1);
    assert forall|i: int| 0 <= i < r2.len() implies b.subrange(
        p + r1.len(),
        p + r1.len() + r2.len(),
    )[i] == r2[i] by {
        assert(w[r1.len() + i] == (r1 + r2)[r1.len() + i]);
    }
    assert(b.subrange(p + r1.len(), p + r1.len() + r2.len()) =~= r2);
}

proof fn lemma_read_u32(b: Seq<u8>, p: int, v: u32)
    requires
        holds_at(b, p, u32_le(v)),
    ensures
        spec_u32(b, p) == Ok::<(u32, int), ParseFailure>((v, p + 4)),
{
    let s = b.subrange(p, p + 4);
    assert(s[0] == b[p] && s[1] == b[p + 1] && s[2] == b[p + 2] && s[3] == b[p + 3]);
    let b0 = b[p];
    let b1 = b[p + 1];
    let b2 = b[p + 2];
    let b3 = b[p + 3];
    assert(b0 + b1 * 256 + (b2 + b3 * 256) * 65536 == v) by (bit_vector)
        requires
            b0 == (v & 0xff) as u8,
            b1 == ((v >> 8u32) & 0xff) as u8,
            b2 == ((v >> 16u32) & 0xff) as u8,
            b3 == ((v >> 24u32) & 0xff) as u8,
    ;
}

proof fn lemma_read_u64(b: Seq<u8>, p: int, v: u64)
    requires
        holds_at(b, p, u64_le(v)),
    ensures
        spec_u64(b, p) == Ok::<(u64, int), ParseFailure>((v, p + 8)),
{
    let s = b.subrange(p, p + 8);
    assert(s[0] == b[p] && s[1] == b[p + 1] && s[2] == b[p + 2] && s[3] == b[p + 3]);
    assert(s[4] == b[p + 4] && s[5] == b[p + 5] && s[6] == b[p + 6] && s[7] == b[p + 7]);
    let b0 = b[p];
    let b1 = b[p + 1];
    let b2 = b[p + 2];
    let b3 = b[p + 3];
    let b4 = b[p + 4];
    let b5 = b[p + 5];
    let b6 = b[p + 6];
    let b7 = b[p + 7];
    assert(b0 + b1 * 256 + (b2 + b3 * 256) * 65536 + (b4 + b5 * 256 + (b6 + b7 * 256) * 65536)
        * 4294967296 == v) by (bit_vector)
        requires
            b0 == (v & 0xff) as u8,
            b1 == ((v >> 8u64) & 0xff) as u8,
            b2 == ((v >> 16u64) & 0xff) as u8,
            b3 == ((v >> 24u64) & 0xff) as u8,
            b4 == ((v >> 32u64) & 0xff) as u8,
            b5 == ((v >> 40u64) & 0xff) as u8,
            b6 == ((v >> 48u64) & 0xff) as u8,
            b7 == ((v >> 56u64) & 0xff) as u8,
    ;
}

proof fn lemma_read_string(b: Seq<u8>, p: int, s: Seq<char>)
    requires
        holds_at(b, p, string_record(s)),
        b.len() <= usize::MAX,
    ensures
        spec_string(b, p) == Ok::<(Seq<char>, int), ParseFailure>(
            (s, p + string_record(s).len()),
        ),
{
    let e = encode_utf8(s);
    lemma_holds_split(b, p, u64_le(e.len() as u64), e);
    lemma_read_u64(b, p, e.len() as u64);
    encode_utf8_valid_utf8(s);
    encode_utf8_decode_utf8(s);
}

/// A string written as a GGUF string record (what `write_string_buf`
/// appends) reads back as the same string, whatever bytes stand before and
/// after it: reading at the record's start gives the string, and the
/// reader's cursor ends just past the eight-byte length and the UTF-8
/// bytes.
pub proof fn lemma_string_record_reads_back(prefix: Seq<u8>, s: Seq<char>, rest: Seq<u8>)
    requires
        (prefix + string_record(s) + rest).len() <= usize::MAX,
    ensures
        string_record(s).len() == 8 + encode_utf8(s).len(),
        spec_string(prefix + string_record(s) + rest, prefix.len() as int) == Ok::<
            (Seq<char>, int),
            ParseFailure,
        >((s, (prefix.len() + 8 + encode_utf8(s).len()) as int)),
        string_cursor(prefix + string_record(s) + rest, prefix.len() as int) == prefix.len() + 8
            + encode_utf8(s).len(),
{
    let r = string_record(s);
    let b = prefix + r + rest;
    let e = encode_utf8(s);
    assert(b.subrange(prefix.len() as int, (prefix.len() + r.len()) as int) =~= r);
    lemma_read_string(b, prefix.len() as int, s);
    lemma_holds_split(b, prefix.len() as int, u64_le(e.len() as u64), e);
    lemma_read_u64(b, prefix.len() as int, e.len() as u64);
}

/// A metadata value of a kind the builder writes.
pub open spec fn builder_value(v: ValueModel) -> bool {
    v is Uint32 || v is Str
}

proof fn lemma_read_value(b: Seq<u8>, p: int, v: ValueModel)
    requires
        builder_value(v),
        holds_at(b, p, value_record(v)),
        b.len() <= usize::MAX,
    ensures
        spec_tagged_value(b, p) == Ok::<(ValueModel, int), ParseFailure>(
            (v, p + value_record(v).len()),
        ),
{
    match v {
        ValueModel::Uint32(x) => {
            lemma_holds_split(b, p, u32_le(4), u32_le(x));
            lemma_read_u32(b, p, 4);
            lemma_read_u32(b, p + 4, x);
        },
        ValueModel::Str(s) => {
            lemma_holds_split(b, p, u32_le(8), string_record(s));
            lemma_read_u32(b, p, 8);
            lemma_read_string(b, p + 4, s);
        },
        _ => {},
    }
}

proof fn lemma_prefix_trans(x: Seq<u8>, y: Seq<u8>, z: Seq<u8>)
    requires
        x.is_prefix_of(y),
        y.is_prefix_of(z),
    ensures
        x.is_prefix_of(z),
{
    assert forall|i: int| 0 <= i < x.len() implies x[i] == z.subrange(0, x.len() as int)[i] by {
        assert(x[i] == y.subrange(0, x.len() as int)[i]);
        assert(y[i] == z.subrange(0, y.len() as int)[i]);
    }
}

proof fn lemma_prefix_append(x: Seq<u8>, y: Seq<u8>)
    ensures
        x.is_prefix_of(x + y),
{
    assert(x =~= (x + y).subrange(0, x.len() as int));
}

proof fn lemma_holds_prefix(b: Seq<u8>, p: int, x: Seq<u8>, y: Seq<u8>)
    requires
        holds_at(b, p, y),
        x.is_prefix_of(y),
    ensures
        holds_at(b, p, x),
{
    assert(y =~= x + y.subrange(x.len() as int, y.len() as int));
    lemma_holds_split(b, p, x, y.subrange(x.len() as int, y.len() as int));
}

proof fn lemma_entries_prefix(md: MetadataModel, j: int)
    requires
        0 <= j <= md.len(),
    ensures
        entries_bytes(md.take(j)).is_prefix_of(entries_bytes(md)),
    decreases md.len(),
{
    if j == md.len() {
        assert(md.take(j) =~= md);
        assert(entries_bytes(md) =~= entries_bytes(md).subrange(0, entries_bytes(md).len() as int));
    } else {
        lemma_entries_prefix(md.drop_last(), j);
        assert(md.drop_last().take(j) =~= md.take(j));
        lemma_prefix_append(
            entries_bytes(md.drop_last()),
            string_record(md.last().0) + value_record(md.last().1),
        );
        assert(entries_bytes(md) =~= entries_bytes(md.drop_last()) + (string_record(md.last().0)
            + value_record(md.last().1)));
        lemma_prefix_trans(
            entries_bytes(md.take(j)),
            entries_bytes(md.drop_last()),
            entries_bytes(md),
        );
    }
}

proof fn lemma_read_entries(b: Seq<u8>, p0: int, md: MetadataModel, i: int)
    requires
        0 <= i <= md.len(),
        forall|k: int| 0 <= k < md.len() ==> builder_value(#[trigger] md[k].1),
        holds_at(b, p0, entries_bytes(md)),
        b.len() <= usize::MAX,
    ensures
        spec_entries(b, p0 + entries_bytes(md.take(i)).len(), (md.len() - i) as nat, md.take(i))
            == Ok::<(MetadataModel, int), ParseFailure>((md, p0 + entries_bytes(md).len())),
    decreases md.len() - i,
{
    if i == md.len() {
        assert(md.take(i) =~= md);
    } else {
        let ti = md.take(i);
        let t1 = md.take(i + 1);
        assert(t1.drop_last() =~= ti);
        assert(t1.last() == md[i]);
        let pi = p0 + entries_bytes(ti).len();
        let sr = string_record(md[i].0);
        let vr = value_record(md[i].1);
        lemma_entries_prefix(md, i + 1);
        lemma_holds_prefix(b, p0, entries_bytes(t1), entries_bytes(md));
        lemma_holds_split(b, p0, entries_bytes(ti) + sr, vr);
        lemma_holds_split(b, p0, entries_bytes(ti), sr);
        lemma_read_string(b, pi, md[i].0);
        lemma_read_value(b, pi + sr.len(), md[i].1);
        lemma_read_entries(b, p0, md, i + 1);
        assert(ti.push((md[i].0, md[i].1)) =~= t1);
    }
}

proof fn lemma_read_dims(b: Seq<u8>, p: int, shape: Seq<usize>, acc: Seq<usize>)
    requires
        holds_at(b, p, dims_bytes(shape)),
    ensures
        dims_bytes(shape).len() == 8 * shape.len(),
        spec_dims(b, p, shape.len(), acc) == Ok::<(Seq<usize>, int), ParseFailure>(
            (acc + shape.reverse(), p + 8 * shape.len()),
        ),
    decreases shape.len(),
{
    if shape.len() == 0 {
        assert(acc + shape.reverse() =~= acc);
    } else {
        let x = shape.last();
        lemma_holds_split(b, p, u64_le(x as u64), dims_bytes(shape.drop_last()));
        lemma_read_u64(b, p, x as u64);
        assert((x as u64) as usize == x);
        lemma_read_dims(b, p + 8, shape.drop_last(), acc.push(x));
        assert(acc.push(x) + shape.drop_last().reverse() =~= acc + shape.reverse());
    }
}

/// A tensor of a kind the reader accepts back: one of the four stored
/// element types, a rank that fits in `u32`, and sizes that fit in `usize`.
pub open spec fn storable(t: TensorEntry) -> bool {
    &&& (t.dtype == DType::F32 || t.dtype == DType::F16 || t.dtype == DType::Q8_0 || t.dtype
        == DType::Q4_0)
    &&& t.shape.len() <= u32::MAX
    &&& prefix_products_fit(t.shape)
    &&& tensor_byte_size(t.dtype, dims_product(t.shape)) <= usize::MAX
}

/// The descriptor read back for a tensor whose data starts at `offset`.
pub open spec fn info_model(t: TensorEntry, offset: int) -> TensorInfoModel {
    TensorInfoModel {
        name: t.name,
        shape: t.shape,
        dtype: t.dtype,
        offset: offset as usize,
        size_in_bytes: tensor_byte_size(t.dtype, dims_product(t.shape)) as usize,
    }
}

proof fn lemma_read_info(b: Seq<u8>, p: int, t: TensorEntry, off: int)
    requires
        storable(t),
        holds_at(b, p, info_record(t, off)),
        0 <= off <= usize::MAX,
        b.len() <= usize::MAX,
    ensures
        spec_tensor_info(b, p) == Ok::<(TensorInfoModel, int), ParseFailure>(
            (info_model(t, off), p + info_record(t, off).len()),
        ),
{
    let sr = string_record(t.name);
    let rk = u32_le(t.shape.len() as u32);
    let db = dims_bytes(t.shape);
    let gt = u32_le(ggml_tag(t.dtype));
    let ob = u64_le(off as u64);
    lemma_holds_split(b, p, sr + rk + db + gt, ob);
    lemma_holds_split(b, p, sr + rk + db, gt);
    lemma_holds_split(b, p, sr + rk, db);
    lemma_holds_split(b, p, sr, rk);
    lemma_read_string(b, p, t.name);
    lemma_read_u32(b, p + sr.len(), t.shape.len() as u32);
    let q2 = p + sr.len() + 4;
    lemma_read_dims(b, q2, t.shape, Seq::empty());
    lemma_read_u32(b, q2 + db.len(), ggml_tag(t.dtype));
    lemma_read_u64(b, q2 + db.len() + 4, off as u64);
    assert((Seq::<usize>::empty() + t.shape.reverse()).reverse() =~= t.shape);
}

/// The descriptors read back for the tensors the builder was given.
pub open spec fn infos_model(ts: Seq<TensorEntry>) -> Seq<TensorInfoModel> {
    Seq::new(ts.len(), |i: int| info_model(ts[i], data_offset(ts, i)))
}

proof fn lemma_infos_prefix(ts: Seq<TensorEntry>, j: int)
    requires
        0 <= j <= ts.len(),
    ensures
        infos_bytes(ts.take(j)).is_prefix_of(infos_bytes(ts)),
    decreases ts.len(),
{
    if j == ts.len() {
        assert(ts.take(j) =~= ts);
        assert(infos_bytes(ts) =~= infos_bytes(ts).subrange(0, infos_bytes(ts).len() as int));
    } else {
        let dl = ts.drop_last();
        lemma_infos_prefix(dl, j);
        assert(dl.take(j) =~= ts.take(j));
        let rest = info_record(ts.last(), data_offset(ts, ts.len() - 1));
        lemma_prefix_append(infos_bytes(dl), rest);
        lemma_prefix_trans(infos_bytes(ts.take(j)), infos_bytes(dl), infos_bytes(ts));
    }
}

#[verifier::rlimit(40)]
proof fn lemma_read_infos(b: Seq<u8>, p0: int, ts: Seq<TensorEntry>, j: int)
    requires
        0 <= j <= ts.len(),
        forall|k: int| 0 <= k < ts.len() ==> storable(#[trigger] ts[k]),
        holds_at(b, p0, infos_bytes(ts)),
        data_bytes(ts).len() <= usize::MAX,
        b.len() <= usize::MAX,
    ensures
        spec_infos(b, p0 + infos_bytes(ts.take(j)).len(), (ts.len() - j) as nat, infos_model(
            ts,
        ).take(j)) == Ok::<(Seq<TensorInfoModel>, int), ParseFailure>(
            (infos_model(ts), p0 + infos_bytes(ts).len()),
        ),
    decreases ts.len() - j,
{
    if j == ts.len() {
        assert(ts.take(j) =~= ts);
        assert(infos_model(ts).take(j) =~= infos_model(ts));
    } else {
        let tj = ts.take(j);
        let t1 = ts.take(j + 1);
        assert(t1.drop_last() =~= tj);
        assert(t1.take(j) =~= tj);
        assert(t1.last() == ts[j]);
        let off = data_offset(ts, j);
        assert(data_offset(t1, j) == off);
        lemma_data_prefix_len(ts, j);
        let pj = p0 + infos_bytes(tj).len();
        lemma_infos_prefix(ts, j + 1);
        lemma_holds_prefix(b, p0, infos_bytes(t1), infos_bytes(ts));
        lemma_holds_split(b, p0, infos_bytes(tj), info_record(ts[j], off));
        lemma_read_info(b, pj, ts[j], off);
        lemma_read_infos(b, p0, ts, j + 1);
        assert(infos_model(ts).take(j).push(info_model(ts[j], off)) =~= infos_model(ts).take(
            j + 1,
        ));
    }
}

proof fn lemma_data_prefix(ts: Seq<TensorEntry>, j: int)
    requires
        0 <= j <= ts.len(),
    ensures
        data_bytes(ts.take(j)).is_prefix_of(data_bytes(ts)),
    decreases ts.len(),
{
    if j == ts.len() {
        assert(ts.take(j) =~= ts);
        assert(data_bytes(ts) =~= data_bytes(ts).subrange(0, data_bytes(ts).len() as int));
    } else {
        let dl = ts.drop_last();
        lemma_data_prefix(dl, j);
        assert(dl.take(j) =~= ts.take(j));
        lemma_prefix_append(data_bytes(dl), ts.last().data);
        lemma_prefix_trans(data_bytes(ts.take(j)), data_bytes(dl), data_bytes(ts));
    }
}

#[verifier::spinoff_prover]
#[verifier::rlimit(60)]
proof fn lemma_parse_header(b: Seq<u8>, md: MetadataModel, ts: Seq<TensorEntry>)
    requires
        md.len() <= usize::MAX,
        ts.len() <= usize::MAX,
        forall|k: int| 0 <= k < md.len() ==> builder_value(#[trigger] md[k].1),
        forall|k: int| 0 <= k < ts.len() ==> storable(#[trigger] ts[k]),
        holds_at(b, 0, header_bytes(md, ts)),
        data_bytes(ts).len() <= usize::MAX,
        b.len() <= usize::MAX,
    ensures
        spec_parse_gguf(b) == spec_finish(
            b.len() as int,
            3,
            md,
            infos_model(ts),
            header_bytes(md, ts).len() as int,
        ),
{
    let mg = u32_le(GGUF_MAGIC);
    let vr = u32_le(3);
    let tc = u64_le(ts.len() as u64);
    let kc = u64_le(md.len() as u64);
    let e = entries_bytes(md);
    let inf = infos_bytes(ts);
    lemma_holds_split(b, 0, mg + vr + tc + kc + e, inf);
    lemma_holds_split(b, 0, mg + vr + tc + kc, e);
    lemma_holds_split(b, 0, mg + vr + tc, kc);
    lemma_holds_split(b, 0, mg + vr, tc);
    lemma_holds_split(b, 0, mg, vr);
    lemma_read_u32(b, 0, GGUF_MAGIC);
    lemma_read_u32(b, 4, 3);
    lemma_read_u64(b, 8, ts.len() as u64);
    lemma_read_u64(b, 16, md.len() as u64);
    assert(md.take(0) =~= Seq::<(Seq<char>, ValueModel)>::empty());
    lemma_read_entries(b, 24, md, 0);
    assert(ts.take(0) =~= Seq::<TensorEntry>::empty());
    assert(infos_model(ts).take(0) =~= Seq::<TensorInfoModel>::empty());
    lemma_read_infos(b, 24 + e.len() as int, ts, 0);
    assert(spec_body(b, 3, ts.len(), md.len(), 24) == spec_tail(b, 3, md, ts.len(), 24 + e.len() as int));
}

proof fn lemma_build_layout(md: MetadataModel, ts: Seq<TensorEntry>)
    requires
        spec_build(md, ts).len() + 32 <= usize::MAX,
    ensures
        holds_at(spec_build(md, ts), 0, header_bytes(md, ts)),
        holds_at(spec_build(md, ts), align32(header_bytes(md, ts).len() as int), data_bytes(ts)),
        spec_build(md, ts).len() == align32(header_bytes(md, ts).len() as int) + data_bytes(ts).len(),
        header_bytes(md, ts).len() <= align32(header_bytes(md, ts).len() as int),
{
    let b = spec_build(md, ts);
    let h = header_bytes(md, ts);
    let a = align32(h.len() as int);
    let pad = Seq::new((a - h.len()) as nat, |i: int| 0u8);
    let data = data_bytes(ts);
    lemma_align32(h.len() as usize);
    assert(b =~= b.subrange(0, b.len() as int));
    lemma_holds_split(b, 0, h + pad, data);
    lemma_holds_split(b, 0, h, pad);
}

proof fn lemma_data_at(b: Seq<u8>, a: int, ts: Seq<TensorEntry>, k: int)
    requires
        0 <= k < ts.len(),
        holds_at(b, a, data_bytes(ts)),
    ensures
        holds_at(b, a + data_offset(ts, k), ts[k].data),
{
    lemma_data_prefix(ts, k + 1);
    lemma_data_prefix_len(ts, k + 1);
    lemma_holds_prefix(b, a, data_bytes(ts.take(k + 1)), data_bytes(ts));
    lemma_holds_split(b, a, data_bytes(ts.take(k)), ts[k].data);
}

/// Reading back what the builder writes. For metadata of the kinds the
/// builder writes (`u32` and string values, with no `general.alignment`
/// other than 32) and tensors of the four stored element types, the file
/// parses as version 3 with the same metadata entries in the same order,
/// one descriptor per tensor with its name, shape, element type, the offset
/// at which the builder placed its data and the byte size its shape
/// implies, and tensor data starting at the first multiple of 32 after the
/// header. Each tensor's bytes stand in the file at the data start plus
/// its offset.
pub proof fn lemma_parse_build(md: MetadataModel, ts: Seq<TensorEntry>)
    requires
        md.len() <= usize::MAX,
        ts.len() <= usize::MAX,
        forall|k: int| 0 <= k < md.len() ==> builder_value(#[trigger] md[k].1),
        spec_alignment(md) == 32,
        forall|k: int| 0 <= k < ts.len() ==> storable(#[trigger] ts[k]),
        spec_build(md, ts).len() + 32 <= usize::MAX,
    ensures
        spec_parse_gguf(spec_build(md, ts)) == Ok::<FileModel, ParseFailure>(
            FileModel {
                version: 3,
                metadata: md,
                tensors: infos_model(ts),
                tensor_data_start: align32(header_bytes(md, ts).len() as int) as usize,
            },
        ),
        forall|k: int|
            0 <= k < ts.len() ==> holds_at(
                spec_build(md, ts),
                align32(header_bytes(md, ts).len() as int) + data_offset(ts, k),
                #[trigger] ts[k].data,
            ),
{
    let b = spec_build(md, ts);
    let h = header_bytes(md, ts);
    let a = align32(h.len() as int);
    lemma_build_layout(md, ts);
    lemma_parse_header(b, md, ts);
    assert(align_up(h.len() as int, 32) == a);
    assert forall|k: int| 0 <= k < ts.len() implies holds_at(b, a + data_offset(ts, k), #[trigger] ts[k].data) by {
        lemma_data_at(b, a, ts, k);
    }
}

} // verus!
