//! The response side of the wire protocol.
//!
//! A response carries a UTF-8 page text and a list of named binary items.
//! On the wire: a version byte, a 32-bit total length, a 16-bit item count,
//! an item table (name length byte, name, 32-bit payload length per item),
//! a 32-bit page length, the page bytes, and the payloads in table order.

use crate::{le16_val, le32_val, u16_le_bytes, u32_le_bytes, ErrorKind, FroggiError,
    FROGGI_VERSION};
use vstd::prelude::*;
use vstd::slice::{slice_subrange, slice_to_vec};
use vstd::string::{StrSliceExecFns, StringSliceAdditionalSpecFns};
use vstd::utf8::valid_utf8;

verus! {

/// One named binary item carried by a response.
#[derive(Debug, PartialEq)]
pub struct Item {
    pub name: Vec<u8>,
    pub payload: Vec<u8>,
}

impl Item {
    /// The item fits the wire format: a short UTF-8 name and a payload
    /// whose length fits its 32-bit field.
    pub open spec fn wf(&self) -> bool {
        &&& self.name@.len() <= 255
        &&& valid_utf8(self.name@)
        &&& self.payload@.len() <= 0xffff_ffff
    }

    /// Build an item; fails when the name or the payload cannot fit the
    /// wire format's length fields.
    pub fn new(name: &str, payload: Vec<u8>) -> (r: Result<Item, FroggiError>)
        ensures
            r is Ok <==> (name.spec_bytes().len() <= 255 && payload@.len() <= 0xffff_ffff),
            r matches Ok(item) ==> item.wf() && item.name@ == name.spec_bytes()
                && item.payload@ == payload@,
            r matches Err(e) ==> e.kind_spec() == ErrorKind::RequestFormatError,
    {
        let name_bytes = name.as_bytes_vec();
        if name_bytes.len() > 255 {
            Err(
                FroggiError::new(ErrorKind::RequestFormatError).msg_str(
                    "item names take at most 255 bytes",
                ),
            )
        } else if payload.len() > 0xffff_ffff {
            Err(
                FroggiError::new(ErrorKind::RequestFormatError).msg_str(
                    "item payloads take at most four gigabytes",
                ),
            )
        } else {
            proof {
                vstd::utf8::encode_utf8_valid_utf8(name@);
            }
            Ok(Item { name: name_bytes, payload })
        }
    }
}

/// A response: the protocol version, the page text bytes, and the items.
#[derive(Debug, PartialEq)]
pub struct Response {
    pub version: u8,
    pub page: Vec<u8>,
    pub items: Vec<Item>,
}

// ---------------------------------------------------------------------------
// The byte layout, specification level
// ---------------------------------------------------------------------------

/// The abstract content of an item list: (name, payload) pairs.
pub open spec fn items_model(items: Seq<Item>) -> Seq<(Seq<u8>, Seq<u8>)> {
    items.map_values(|it: Item| (it.name@, it.payload@))
}

/// One entry of the item table.
pub open spec fn spec_entry_bytes(name: Seq<u8>, payload_len: int) -> Seq<u8> {
    seq![name.len() as u8] + name + u32_le_bytes(payload_len)
}

/// The item table: one entry per item, in order.
pub open spec fn spec_table_bytes(items: Seq<(Seq<u8>, Seq<u8>)>) -> Seq<u8>
    decreases items.len(),
{
    if items.len() == 0 {
        Seq::empty()
    } else {
        spec_entry_bytes(items[0].0, items[0].1.len() as int) + spec_table_bytes(
            items.drop_first(),
        )
    }
}

/// The concatenated payloads, in table order.
pub open spec fn spec_payload_bytes(items: Seq<(Seq<u8>, Seq<u8>)>) -> Seq<u8>
    decreases items.len(),
{
    if items.len() == 0 {
        Seq::empty()
    } else {
        items[0].1 + spec_payload_bytes(items.drop_first())
    }
}

/// Everything the total-length field counts: the item count, the table,
/// the page length, the page, and the payloads.
pub open spec fn spec_body_bytes(items: Seq<(Seq<u8>, Seq<u8>)>, page: Seq<u8>) -> Seq<u8> {
    u16_le_bytes(items.len() as int) + spec_table_bytes(items) + u32_le_bytes(page.len() as int)
        + page + spec_payload_bytes(items)
}

/// The full wire encoding of a response.
pub open spec fn spec_response_bytes(items: Seq<(Seq<u8>, Seq<u8>)>, page: Seq<u8>) -> Seq<u8> {
    seq![0u8] + u32_le_bytes(spec_body_bytes(items, page).len() as int) + spec_body_bytes(
        items,
        page,
    )
}

/// The item list and page can be encoded: every length fits its field.
pub open spec fn encodable(items: Seq<(Seq<u8>, Seq<u8>)>, page: Seq<u8>) -> bool {
    &&& items.len() <= 0xffff
    &&& forall|i: int|
        0 <= i < items.len() ==> (#[trigger] items[i]).0.len() <= 255 && valid_utf8(items[i].0)
            && items[i].1.len() <= 0xffff_ffff
    &&& spec_body_bytes(items, page).len() <= 0xffff_ffff
}

/// Appending one item extends the table by one entry.
proof fn lemma_table_bytes_push(items: Seq<(Seq<u8>, Seq<u8>)>, x: (Seq<u8>, Seq<u8>))
    ensures
        spec_table_bytes(items.push(x)) == spec_table_bytes(items) + spec_entry_bytes(
            x.0,
            x.1.len() as int,
        ),
    decreases items.len(),
{
    if items.len() == 0 {
        assert(items.push(x).drop_first() =~= items);
        assert(items.push(x)[0] == x);
        assert(spec_table_bytes(items.push(x)) =~= spec_table_bytes(items) + spec_entry_bytes(
            x.0,
            x.1.len() as int,
        ));
    } else {
        assert(items.push(x).drop_first() =~= items.drop_first().push(x));
        assert(items.push(x)[0] == items[0]);
        lemma_table_bytes_push(items.drop_first(), x);
        assert(spec_table_bytes(items.push(x)) =~= spec_table_bytes(items) + spec_entry_bytes(
            x.0,
            x.1.len() as int,
        ));
    }
}

/// Appending one item extends the payload area by its payload.
proof fn lemma_payload_bytes_push(items: Seq<(Seq<u8>, Seq<u8>)>, x: (Seq<u8>, Seq<u8>))
    ensures
        spec_payload_bytes(items.push(x)) == spec_payload_bytes(items) + x.1,
    decreases items.len(),
{
    if items.len() == 0 {
        assert(items.push(x).drop_first() =~= items);
        assert(items.push(x)[0] == x);
        assert(spec_payload_bytes(items.push(x)) =~= spec_payload_bytes(items) + x.1);
    } else {
        assert(items.push(x).drop_first() =~= items.drop_first().push(x));
        assert(items.push(x)[0] == items[0]);
        lemma_payload_bytes_push(items.drop_first(), x);
        assert(spec_payload_bytes(items.push(x)) =~= spec_payload_bytes(items) + x.1);
    }
}

/// The table of a prefix of the items is no longer than the whole table.
proof fn lemma_table_prefix_len(items: Seq<(Seq<u8>, Seq<u8>)>, k: int)
    requires
        0 <= k <= items.len(),
    ensures
        spec_table_bytes(items.take(k)).len() <= spec_table_bytes(items).len(),
    decreases items.len() - k,
{
    if k == items.len() {
        assert(items.take(k) =~= items);
    } else {
        assert(items.take(k + 1) =~= items.take(k).push(items[k]));
        lemma_table_bytes_push(items.take(k), items[k]);
        lemma_table_prefix_len(items, k + 1);
    }
}

/// The payloads of a prefix of the items are no longer than all payloads.
proof fn lemma_payload_prefix_len(items: Seq<(Seq<u8>, Seq<u8>)>, k: int)
    requires
        0 <= k <= items.len(),
    ensures
        spec_payload_bytes(items.take(k)).len() <= spec_payload_bytes(items).len(),
    decreases items.len() - k,
{
    if k == items.len() {
        assert(items.take(k) =~= items);
    } else {
        assert(items.take(k + 1) =~= items.take(k).push(items[k]));
        lemma_payload_bytes_push(items.take(k), items[k]);
        lemma_payload_prefix_len(items, k + 1);
    }
}

/// The body always holds at least its fixed fields and the page.
proof fn lemma_body_bytes_lower_bound(items: Seq<(Seq<u8>, Seq<u8>)>, page: Seq<u8>)
    ensures
        spec_body_bytes(items, page).len() >= 6 + page.len(),
        spec_table_bytes(items).len() >= 0,
        spec_payload_bytes(items).len() >= 0,
{
}

// ---------------------------------------------------------------------------
// Reading a response, specification level
// ---------------------------------------------------------------------------

/// Reading the item table: `count` entries of (name, payload length),
/// starting at `pos` inside the body window.
pub open spec fn spec_parse_table(w: Seq<u8>, pos: int, count: int) -> Result<
    (Seq<(Seq<u8>, int)>, int),
    ErrorKind,
>
    decreases count,
{
    if count <= 0 {
        Ok((Seq::empty(), pos))
    } else if pos + 1 > w.len() {
        Err(ErrorKind::RequestFormatError)
    } else {
        let nlen = w[pos] as int;
        if pos + 1 + nlen + 4 > w.len() {
            Err(ErrorKind::RequestFormatError)
        } else {
            let name = w.subrange(pos + 1, pos + 1 + nlen);
            if !valid_utf8(name) {
                Err(ErrorKind::EncodingError)
            } else {
                let plen = le32_val(w.subrange(pos + 1 + nlen, pos + 1 + nlen + 4));
                match spec_parse_table(w, pos + 1 + nlen + 4, count - 1) {
                    Err(k) => Err(k),
                    Ok((rest, end)) => Ok((seq![(name, plen)] + rest, end)),
                }
            }
        }
    }
}

/// Reading the payloads that the table entries declare, starting at `pos`.
pub open spec fn spec_parse_payloads(w: Seq<u8>, pos: int, entries: Seq<(Seq<u8>, int)>) -> Result<
    (Seq<(Seq<u8>, Seq<u8>)>, int),
    ErrorKind,
>
    decreases entries.len(),
{
    if entries.len() == 0 {
        Ok((Seq::empty(), pos))
    } else {
        let (name, plen) = entries[0];
        if plen < 0 || pos + plen > w.len() {
            Err(ErrorKind::RequestFormatError)
        } else {
            let payload = w.subrange(pos, pos + plen);
            match spec_parse_payloads(w, pos + plen, entries.drop_first()) {
                Err(k) => Err(k),
                Ok((rest, end)) => Ok((seq![(name, payload)] + rest, end)),
            }
        }
    }
}

/// Reading the body window that the total-length field frames. Every length
/// declared inside must add up exactly to the window.
pub open spec fn spec_parse_window(w: Seq<u8>) -> Result<
    (Seq<(Seq<u8>, Seq<u8>)>, Seq<u8>),
    ErrorKind,
> {
    if w.len() < 2 {
        Err(ErrorKind::RequestFormatError)
    } else {
        let count = le16_val(w.subrange(0, 2));
        match spec_parse_table(w, 2, count) {
            Err(k) => Err(k),
            Ok((entries, pos)) => if pos + 4 > w.len() {
                Err(ErrorKind::RequestFormatError)
            } else {
                let plen = le32_val(w.subrange(pos, pos + 4));
                if pos + 4 + plen > w.len() {
                    Err(ErrorKind::RequestFormatError)
                } else {
                    let page = w.subrange(pos + 4, pos + 4 + plen);
                    if !valid_utf8(page) {
                        Err(ErrorKind::EncodingError)
                    } else {
                        match spec_parse_payloads(w, pos + 4 + plen, entries) {
                            Err(k) => Err(k),
                            Ok((items, end)) => if end == w.len() {
                                Ok((items, page))
                            } else {
                                Err(ErrorKind::RequestFormatError)
                            },
                        }
                    }
                }
            },
        }
    }
}

/// What reading a response from the given bytes yields.
pub open spec fn spec_parse_response(b: Seq<u8>) -> Result<
    (Seq<(Seq<u8>, Seq<u8>)>, Seq<u8>),
    ErrorKind,
> {
    if b.len() < 5 {
        Err(ErrorKind::IOError)
    } else if b[0] != 0 {
        Err(ErrorKind::RequestFormatError)
    } else {
        let total = le32_val(b.subrange(1, 5));
        if b.len() < 5 + total {
            Err(ErrorKind::IOError)
        } else {
            spec_parse_window(b.subrange(5, 5 + total))
        }
    }
}

// ---------------------------------------------------------------------------
// The executable response
// ---------------------------------------------------------------------------

/// Copy the bytes of a vector.
fn copy_bytes(v: &Vec<u8>) -> (r: Vec<u8>)
    ensures
        r@ == v@,
{
    slice_to_vec(v.as_slice())
}

/// The table entries that an item list declares: name and payload length.
pub open spec fn table_entries(items: Seq<(Seq<u8>, Seq<u8>)>) -> Seq<(Seq<u8>, int)> {
    items.map_values(|p: (Seq<u8>, Seq<u8>)| (p.0, p.1.len() as int))
}

/// The abstract content of the entries the table reader yields.
pub open spec fn entries_model(es: Seq<(Vec<u8>, usize)>) -> Seq<(Seq<u8>, int)> {
    es.map_values(|p: (Vec<u8>, usize)| (p.0@, p.1 as int))
}

/// Read `count` table entries starting at `pos`.
fn parse_table_from(w: &[u8], pos: usize, count: usize) -> (r: Result<
    (Vec<(Vec<u8>, usize)>, usize),
    FroggiError,
>)
    requires
        pos <= w@.len(),
    ensures
        match r {
            Ok((es, end)) => {
                &&& spec_parse_table(w@, pos as int, count as int) == Ok::<_, ErrorKind>(
                    (entries_model(es@), end as int),
                )
                &&& pos <= end <= w@.len()
                &&& es@.len() == count
                &&& forall|k: int|
                    0 <= k < es@.len() ==> (#[trigger] es@[k]).0@.len() <= 255 && valid_utf8(
                        es@[k].0@,
                    ) && es@[k].1 <= 0xffff_ffff
            },
            Err(e) => {
                &&& spec_parse_table(w@, pos as int, count as int) is Err
                &&& e.kind_spec() == spec_parse_table(w@, pos as int, count as int)->Err_0
            },
        },
    decreases count,
{
    if count == 0 {
        let es: Vec<(Vec<u8>, usize)> = Vec::new();
        proof {
            assert(entries_model(es@) =~= Seq::<(Seq<u8>, int)>::empty());
        }
        return Ok((es, pos));
    }
    if pos >= w.len() {
        return Err(
            FroggiError::new(ErrorKind::RequestFormatError).msg_str(
                "the item table runs past the declared total length",
            ),
        );
    }
    let nlen = w[pos] as usize;
    if w.len() - pos - 1 < nlen + 4 {
        return Err(
            FroggiError::new(ErrorKind::RequestFormatError).msg_str(
                "the item table runs past the declared total length",
            ),
        );
    }
    let name_slice = slice_subrange(w, pos + 1, pos + 1 + nlen);
    if crate::utf8_to_str(name_slice).is_none() {
        return Err(FroggiError::encoding().msg_str("an item name is not valid utf8"));
    }
    let len_slice = slice_subrange(w, pos + 1 + nlen, pos + 1 + nlen + 4);
    let plen = crate::deserialize_four_bytes(len_slice);
    match parse_table_from(w, pos + 1 + nlen + 4, count - 1) {
        Err(e) => Err(e),
        Ok((mut rest, end)) => {
            let ghost rest0 = rest@;
            let name = slice_to_vec(name_slice);
            rest.insert(0, (name, plen));
            proof {
                assert(entries_model(rest@) =~= seq![(name_slice@, plen as int)] + entries_model(
                    rest0,
                ));
                assert forall|k: int|
                    0 <= k < rest@.len() implies (#[trigger] rest@[k]).0@.len() <= 255
                    && valid_utf8(rest@[k].0@) && rest@[k].1 <= 0xffff_ffff by {
                    if k > 0 {
                        assert(rest@[k] == rest0[k - 1]);
                    }
                }
            }
            Ok((rest, end))
        },
    }
}

/// Read the payloads declared by the table entries, from `pos` on, and pair
/// them with their names.
fn parse_payloads_from(w: &[u8], pos: usize, es: &Vec<(Vec<u8>, usize)>, i: usize) -> (r: Result<
    (Vec<Item>, usize),
    FroggiError,
>)
    requires
        pos <= w@.len(),
        i <= es@.len(),
        forall|k: int|
            0 <= k < es@.len() ==> (#[trigger] es@[k]).0@.len() <= 255 && valid_utf8(es@[k].0@)
                && es@[k].1 <= 0xffff_ffff,
    ensures
        match r {
            Ok((items, end)) => {
                &&& spec_parse_payloads(w@, pos as int, entries_model(es@).skip(i as int))
                    == Ok::<_, ErrorKind>((items_model(items@), end as int))
                &&& pos <= end <= w@.len()
                &&& items@.len() == es@.len() - i
                &&& forall|k: int| 0 <= k < items@.len() ==> (#[trigger] items@[k]).wf()
            },
            Err(e) => {
                &&& spec_parse_payloads(w@, pos as int, entries_model(es@).skip(i as int)) is Err
                &&& e.kind_spec() == spec_parse_payloads(
                    w@,
                    pos as int,
                    entries_model(es@).skip(i as int),
                )->Err_0
            },
        },
    decreases es@.len() - i,
{
    let ghost tail = entries_model(es@).skip(i as int);
    if i == es.len() {
        let items: Vec<Item> = Vec::new();
        proof {
            assert(tail =~= Seq::<(Seq<u8>, int)>::empty());
            assert(items_model(items@) =~= Seq::<(Seq<u8>, Seq<u8>)>::empty());
        }
        return Ok((items, pos));
    }
    proof {
        assert(tail[0] == entries_model(es@)[i as int]);
        assert(tail.drop_first() =~= entries_model(es@).skip(i + 1 as int));
    }
    let plen = es[i].1;
    if w.len() - pos < plen {
        return Err(
            FroggiError::new(ErrorKind::RequestFormatError).msg_str(
                "an item payload runs past the declared total length",
            ),
        );
    }
    let payload_slice = slice_subrange(w, pos, pos + plen);
    match parse_payloads_from(w, pos + plen, es, i + 1) {
        Err(e) => Err(e),
        Ok((mut rest, end)) => {
            let ghost rest0 = rest@;
            let name = copy_bytes(&es[i].0);
            let payload = slice_to_vec(payload_slice);
            let item = Item { name, payload };
            rest.insert(0, item);
            proof {
                assert(items_model(rest@) =~= seq![(es@[i as int].0@, payload_slice@)]
                    + items_model(rest0));
                assert forall|k: int| 0 <= k < rest@.len() implies (#[trigger] rest@[k]).wf() by {
                    if k > 0 {
                        assert(rest@[k] == rest0[k - 1]);
                    }
                }
            }
            Ok((rest, end))
        },
    }
}

impl Response {
    /// The response is sound: version zero, UTF-8 page text, and items that
    /// each fit the wire format.
    pub open spec fn wf(&self) -> bool {
        &&& self.version == 0
        &&& valid_utf8(self.page@)
        &&& self.items@.len() <= 0xffff
        &&& forall|i: int| 0 <= i < self.items@.len() ==> (#[trigger] self.items@[i]).wf()
    }

    /// Build a response; fails when the item count or any declared length
    /// cannot fit the wire format.
    pub fn new(page: &str, items: Vec<Item>) -> (r: Result<Response, FroggiError>)
        ensures
            r is Ok <==> encodable(items_model(items@), page.spec_bytes()),
            r matches Ok(resp) ==> resp.wf() && resp.version == 0 && resp.page@
                == page.spec_bytes() && resp.items == items && encodable(
                items_model(resp.items@),
                resp.page@,
            ),
            r matches Err(e) ==> e.kind_spec() == ErrorKind::RequestFormatError,
    {
        let page_bytes = page.as_bytes_vec();
        proof {
            vstd::utf8::encode_utf8_valid_utf8(page@);
        }
        if items.len() > 0xffff {
            return Err(
                FroggiError::new(ErrorKind::RequestFormatError).msg_str(
                    "a response carries at most 65535 items",
                ),
            );
        }
        let ghost model = items_model(items@);
        // Walk the items, checking each length and summing the body size.
        if page_bytes.len() > 0xffff_ffff {
            proof {
                lemma_body_bytes_lower_bound(model, page.spec_bytes());
            }
            return Err(
                FroggiError::new(ErrorKind::RequestFormatError).msg_str(
                    "the response does not fit the 32-bit total length",
                ),
            );
        }
        let mut sum: u64 = 2 + 4 + (page_bytes.len() as u64);
        if sum > 0xffff_ffff {
            proof {
                lemma_body_bytes_lower_bound(model, page.spec_bytes());
            }
            return Err(
                FroggiError::new(ErrorKind::RequestFormatError).msg_str(
                    "the response does not fit the 32-bit total length",
                ),
            );
        }
        proof {
            assert(model.take(0) =~= Seq::<(Seq<u8>, Seq<u8>)>::empty());
        }
        let mut i: usize = 0;
        while i < items.len()
            invariant
                0 <= i <= items@.len(),
                items@.len() <= 0xffff,
                model == items_model(items@),
                forall|j: int| 0 <= j < i ==> (#[trigger] items@[j]).wf(),
                sum == 6 + page.spec_bytes().len() + spec_table_bytes(model.take(i as int)).len()
                    + spec_payload_bytes(model.take(i as int)).len(),
                sum <= 0xffff_ffff,
                page_bytes@ == page.spec_bytes(),
            decreases items@.len() - i,
        {
            let item = &items[i];
            proof {
                assert(model[i as int] == (items@[i as int].name@, items@[i as int].payload@));
            }
            if item.name.len() > 255 {
                proof {
                    if encodable(model, page.spec_bytes()) {
                        assert(model[i as int].0.len() <= 255);
                    }
                }
                return Err(
                    FroggiError::new(ErrorKind::RequestFormatError).msg_str(
                        "item names take at most 255 bytes",
                    ),
                );
            }
            if crate::utf8_to_str(item.name.as_slice()).is_none() {
                proof {
                    if encodable(model, page.spec_bytes()) {
                        assert(valid_utf8(model[i as int].0));
                    }
                }
                return Err(
                    FroggiError::new(ErrorKind::RequestFormatError).msg_str(
                        "an item name is not valid utf8",
                    ),
                );
            }
            if item.payload.len() > 0xffff_ffff {
                proof {
                    if encodable(model, page.spec_bytes()) {
                        assert(model[i as int].1.len() <= 0xffff_ffff);
                    }
                }
                return Err(
                    FroggiError::new(ErrorKind::RequestFormatError).msg_str(
                        "item payloads take at most four gigabytes",
                    ),
                );
            }
            proof {
                assert(model.take(i + 1 as int).drop_last() =~= model.take(i as int));
                assert(model.take(i + 1 as int) =~= model.take(i as int).push(
                    model[i as int],
                ));
                lemma_table_bytes_push(model.take(i as int), model[i as int]);
                lemma_payload_bytes_push(model.take(i as int), model[i as int]);
            }
            sum = sum + 5 + (item.name.len() as u64) + (item.payload.len() as u64);
            if sum > 0xffff_ffff {
                proof {
                    lemma_table_prefix_len(model, i + 1 as int);
                    lemma_payload_prefix_len(model, i + 1 as int);
                }
                return Err(
                    FroggiError::new(ErrorKind::RequestFormatError).msg_str(
                        "the response does not fit the 32-bit total length",
                    ),
                );
            }
            i = i + 1;
        }
        proof {
            assert(model.take(items@.len() as int) =~= model);
        }
        Ok(Response { version: FROGGI_VERSION, page: page_bytes, items })
    }
}


/// Append the bytes of one vector to another.
fn extend_bytes(out: &mut Vec<u8>, src: &Vec<u8>)
    ensures
        final(out)@ == old(out)@ + src@,
{
    let mut i: usize = 0;
    while i < src.len()
        invariant
            0 <= i <= src@.len(),
            out@ == old(out)@ + src@.take(i as int),
        decreases src@.len() - i,
    {
        out.push(src[i]);
        proof {
            assert(out@ =~= old(out)@ + src@.take(i + 1 as int));
        }
        i = i + 1;
    }
    proof {
        assert(src@.take(src@.len() as int) =~= src@);
    }
}

impl Response {
    /// Serialize the response into its wire bytes.
    pub fn to_bytes(&self) -> (r: Vec<u8>)
        requires
            self.wf(),
            encodable(items_model(self.items@), self.page@),
        ensures
            r@ == spec_response_bytes(items_model(self.items@), self.page@),
    {
        let ghost model = items_model(self.items@);
        let mut body: Vec<u8> = Vec::new();
        let (low, high) = crate::serialize_to_bytes(self.items.len());
        body.push(low);
        body.push(high);
        proof {
            assert(model.len() == self.items@.len());
            assert(body@ =~= u16_le_bytes(model.len() as int));
            assert(model.take(0) =~= Seq::<(Seq<u8>, Seq<u8>)>::empty());
        }
        let mut i: usize = 0;
        while i < self.items.len()
            invariant
                0 <= i <= self.items@.len(),
                model == items_model(self.items@),
                self.wf(),
                body@ == u16_le_bytes(model.len() as int) + spec_table_bytes(
                    model.take(i as int),
                ),
            decreases self.items@.len() - i,
        {
            let item = &self.items[i];
            proof {
                assert(model[i as int] == (self.items@[i as int].name@,
                    self.items@[i as int].payload@));
                assert(self.items@[i as int].wf());
            }
            body.push(item.name.len() as u8);
            extend_bytes(&mut body, &item.name);
            let four = crate::serialize_to_four_bytes(item.payload.len());
            body.push(four[0]);
            body.push(four[1]);
            body.push(four[2]);
            body.push(four[3]);
            proof {
                lemma_table_bytes_push(model.take(i as int), model[i as int]);
                assert(model.take(i + 1 as int) =~= model.take(i as int).push(model[i as int]));
                assert(body@ =~= u16_le_bytes(model.len() as int) + spec_table_bytes(
                    model.take(i + 1 as int),
                ));
            }
            i = i + 1;
        }
        proof {
            assert(model.take(self.items@.len() as int) =~= model);
            lemma_body_bytes_lower_bound(model, self.page@);
        }
        let four = crate::serialize_to_four_bytes(self.page.len());
        body.push(four[0]);
        body.push(four[1]);
        body.push(four[2]);
        body.push(four[3]);
        extend_bytes(&mut body, &self.page);
        let ghost mid = u16_le_bytes(model.len() as int) + spec_table_bytes(model)
            + u32_le_bytes(self.page@.len() as int) + self.page@;
        proof {
            assert(body@ =~= mid);
            assert(model.take(0) =~= Seq::<(Seq<u8>, Seq<u8>)>::empty());
            assert(body@ =~= mid + spec_payload_bytes(model.take(0)));
        }
        let mut j: usize = 0;
        while j < self.items.len()
            invariant
                0 <= j <= self.items@.len(),
                model == items_model(self.items@),
                self.wf(),
                mid == u16_le_bytes(model.len() as int) + spec_table_bytes(model)
                    + u32_le_bytes(self.page@.len() as int) + self.page@,
                body@ == mid + spec_payload_bytes(model.take(j as int)),
            decreases self.items@.len() - j,
        {
            proof {
                assert(model[j as int] == (self.items@[j as int].name@,
                    self.items@[j as int].payload@));
            }
            extend_bytes(&mut body, &self.items[j].payload);
            proof {
                lemma_payload_bytes_push(model.take(j as int), model[j as int]);
                assert(model.take(j + 1 as int) =~= model.take(j as int).push(model[j as int]));
                assert(body@ =~= mid + spec_payload_bytes(model.take(j + 1 as int)));
            }
            j = j + 1;
        }
        proof {
            assert(model.take(self.items@.len() as int) =~= model);
            assert(body@ =~= spec_body_bytes(model, self.page@));
        }
        let mut out: Vec<u8> = Vec::new();
        out.push(FROGGI_VERSION);
        let four = crate::serialize_to_four_bytes(body.len());
        out.push(four[0]);
        out.push(four[1]);
        out.push(four[2]);
        out.push(four[3]);
        extend_bytes(&mut out, &body);
        proof {
            assert(out@ =~= spec_response_bytes(model, self.page@));
        }
        out
    }

    /// Read one response from the front of the given bytes. Exactly the
    /// declared total length is looked at, and every declared length must
    /// add up to it.
    pub fn from_bytes(bytes: &[u8]) -> (r: Result<Response, FroggiError>)
        ensures
            r is Ok <==> spec_parse_response(bytes@) is Ok,
            r matches Ok(resp) ==> spec_parse_response(bytes@) == Ok::<_, ErrorKind>(
                (items_model(resp.items@), resp.page@),
            ) && resp.wf(),
            r matches Err(e) ==> spec_parse_response(bytes@) is Err && e.kind_spec()
                == spec_parse_response(bytes@)->Err_0,
    {
        if bytes.len() < 5 {
            return Err(FroggiError::io().msg_str("the stream ended before the response header"));
        }
        if bytes[0] != FROGGI_VERSION {
            return Err(
                FroggiError::new(ErrorKind::RequestFormatError).msg_str(
                    "unsupported protocol version",
                ),
            );
        }
        let total = crate::deserialize_four_bytes(slice_subrange(bytes, 1, 5));
        if bytes.len() - 5 < total {
            return Err(FroggiError::io().msg_str("the stream ended inside the response"));
        }
        let w = slice_subrange(bytes, 5, 5 + total);
        if w.len() < 2 {
            return Err(
                FroggiError::new(ErrorKind::RequestFormatError).msg_str(
                    "the total length leaves no room for the item count",
                ),
            );
        }
        let count = crate::deserialize_bytes(slice_subrange(w, 0, 2));
        let (entries, pos) = match parse_table_from(w, 2, count) {
            Ok(t) => t,
            Err(e) => {
                return Err(e);
            },
        };
        if w.len() - pos < 4 {
            return Err(
                FroggiError::new(ErrorKind::RequestFormatError).msg_str(
                    "the total length leaves no room for the page length",
                ),
            );
        }
        let plen = crate::deserialize_four_bytes(slice_subrange(w, pos, pos + 4));
        if w.len() - pos - 4 < plen {
            return Err(
                FroggiError::new(ErrorKind::RequestFormatError).msg_str(
                    "the page runs past the declared total length",
                ),
            );
        }
        let page_slice = slice_subrange(w, pos + 4, pos + 4 + plen);
        if crate::utf8_to_str(page_slice).is_none() {
            return Err(FroggiError::encoding().msg_str("the page text is not valid utf8"));
        }
        let page = slice_to_vec(page_slice);
        match parse_payloads_from(w, pos + 4 + plen, &entries, 0) {
            Err(e) => {
                proof {
                    assert(entries_model(entries@).skip(0) =~= entries_model(entries@));
                }
                Err(e)
            },
            Ok((items, end)) => {
                proof {
                    assert(entries_model(entries@).skip(0) =~= entries_model(entries@));
                }
                if end != w.len() {
                    return Err(
                        FroggiError::new(ErrorKind::RequestFormatError).msg_str(
                            "the declared lengths do not add up to the total length",
                        ),
                    );
                }
                Ok(Response { version: FROGGI_VERSION, page, items })
            },
        }
    }
}

// ---------------------------------------------------------------------------
// Round-trip laws
// ---------------------------------------------------------------------------

/// A subrange of a known subrange of a sequence.
proof fn lemma_sub_sub(w: Seq<u8>, pos: int, n: int, s: Seq<u8>, a: int, b: int)
    requires
        0 <= pos,
        pos + n <= w.len(),
        w.subrange(pos, pos + n) == s,
        s.len() == n,
        0 <= a <= b <= n,
    ensures
        w.subrange(pos + a, pos + b) == s.subrange(a, b),
{
    assert forall|k: int| 0 <= k < b - a implies w.subrange(pos + a, pos + b)[k] == s.subrange(
        a,
        b,
    )[k] by {
        assert(w.subrange(pos, pos + n)[a + k] == s[a + k]);
    }
    assert(w.subrange(pos + a, pos + b) =~= s.subrange(a, b));
}

/// Reading back an encoded item table yields its entries.
#[verifier::rlimit(100)]
proof fn lemma_parse_table_round(w: Seq<u8>, pos: int, items: Seq<(Seq<u8>, Seq<u8>)>)
    requires
        0 <= pos,
        pos + spec_table_bytes(items).len() <= w.len(),
        w.subrange(pos, pos + spec_table_bytes(items).len()) == spec_table_bytes(items),
        forall|i: int|
            0 <= i < items.len() ==> (#[trigger] items[i]).0.len() <= 255 && valid_utf8(
                items[i].0,
            ) && items[i].1.len() <= 0xffff_ffff,
    ensures
        spec_parse_table(w, pos, items.len() as int) == Ok::<_, ErrorKind>(
            (table_entries(items), pos + spec_table_bytes(items).len()),
        ),
    decreases items.len(),
{
    let table = spec_table_bytes(items);
    if items.len() == 0 {
        assert(table_entries(items) =~= Seq::<(Seq<u8>, int)>::empty());
    } else {
        let name = items[0].0;
        let nlen = name.len() as int;
        let entry = spec_entry_bytes(name, items[0].1.len() as int);
        let rest = spec_table_bytes(items.drop_first());
        assert(table == entry + rest);
        assert(entry.len() == 1 + nlen + 4);
        // The leading byte is the name length.
        assert(w[pos] == table[0]);
        assert(table[0] == entry[0]);
        assert(entry[0] == name.len() as u8);
        assert(w[pos] as int == nlen);
        // The name bytes.
        lemma_sub_sub(w, pos, table.len() as int, table, 1, 1 + nlen);
        assert(table.subrange(1, 1 + nlen) =~= name);
        // The payload length field.
        lemma_sub_sub(w, pos, table.len() as int, table, 1 + nlen, 1 + nlen + 4);
        assert(table.subrange(1 + nlen, 1 + nlen + 4) =~= u32_le_bytes(
            items[0].1.len() as int,
        ));
        crate::lemma_u32_le_round_trip(items[0].1.len() as int);
        // The rest of the table.
        lemma_sub_sub(w, pos, table.len() as int, table, entry.len() as int, table.len() as int);
        assert(table.subrange(entry.len() as int, table.len() as int) =~= rest);
        assert(forall|i: int|
            0 <= i < items.drop_first().len() ==> items.drop_first()[i] == items[i + 1]);
        lemma_parse_table_round(w, pos + entry.len(), items.drop_first());
        assert(table_entries(items) =~= seq![(name, items[0].1.len() as int)] + table_entries(
            items.drop_first(),
        ));
    }
}

/// Reading back the encoded payloads yields the items.
#[verifier::rlimit(100)]
proof fn lemma_parse_payloads_round(w: Seq<u8>, pos: int, items: Seq<(Seq<u8>, Seq<u8>)>)
    requires
        0 <= pos,
        pos + spec_payload_bytes(items).len() <= w.len(),
        w.subrange(pos, pos + spec_payload_bytes(items).len()) == spec_payload_bytes(items),
        pos + spec_payload_bytes(items).len() == w.len(),
    ensures
        spec_parse_payloads(w, pos, table_entries(items)) == Ok::<_, ErrorKind>(
            (items, pos + spec_payload_bytes(items).len()),
        ),
    decreases items.len(),
{
    let entries = table_entries(items);
    let all = spec_payload_bytes(items);
    if items.len() == 0 {
        assert(entries =~= Seq::<(Seq<u8>, int)>::empty());
        assert(items =~= Seq::<(Seq<u8>, Seq<u8>)>::empty());
    } else {
        let payload = items[0].1;
        let plen = payload.len() as int;
        let rest = spec_payload_bytes(items.drop_first());
        assert(all == payload + rest);
        lemma_sub_sub(w, pos, all.len() as int, all, 0, plen);
        assert(all.subrange(0, plen) =~= payload);
        lemma_sub_sub(w, pos, all.len() as int, all, plen, all.len() as int);
        assert(all.subrange(plen, all.len() as int) =~= rest);
        assert(forall|i: int|
            0 <= i < items.drop_first().len() ==> items.drop_first()[i] == items[i + 1]);
        lemma_parse_payloads_round(w, pos + plen, items.drop_first());
        assert(entries.drop_first() =~= table_entries(items.drop_first()));
        assert(entries[0] == (items[0].0, plen));
        assert(w.subrange(pos, pos + plen) == items[0].1);
        assert(seq![(entries[0].0, w.subrange(pos, pos + plen))] + items.drop_first()
            =~= items);
        assert(items =~= seq![(items[0].0, payload)] + items.drop_first());
        let end2 = pos + plen + rest.len();
        assert(spec_parse_payloads(w, pos + plen, entries.drop_first()) == Ok::<_, ErrorKind>(
            (items.drop_first(), end2),
        ));
        assert(spec_parse_payloads(w, pos, entries) == Ok::<_, ErrorKind>(
            (seq![(entries[0].0, w.subrange(pos, pos + plen))] + items.drop_first(), end2),
        ));
    }
}

/// Law: a response round-trips through its byte encoding — reading back the
/// encoding of any encodable item list and page yields them unchanged.
#[verifier::rlimit(100)]
pub proof fn lemma_response_round_trip(items: Seq<(Seq<u8>, Seq<u8>)>, page: Seq<u8>)
    requires
        encodable(items, page),
        valid_utf8(page),
    ensures
        spec_parse_response(spec_response_bytes(items, page)) == Ok::<_, ErrorKind>(
            (items, page),
        ),
{
    let body = spec_body_bytes(items, page);
    let b = spec_response_bytes(items, page);
    let table = spec_table_bytes(items);
    let payloads = spec_payload_bytes(items);
    assert(b.len() == 5 + body.len());
    assert(b[0] == 0);
    assert(b.subrange(1, 5) =~= u32_le_bytes(body.len() as int));
    crate::lemma_u32_le_round_trip(body.len() as int);
    let w = b.subrange(5, 5 + body.len() as int);
    assert(w =~= body);
    // The item count.
    assert(w.subrange(0, 2) =~= u16_le_bytes(items.len() as int));
    crate::lemma_u16_le_round_trip(items.len() as int);
    // The table.
    assert(w.subrange(2, 2 + table.len() as int) =~= table);
    lemma_parse_table_round(w, 2, items);
    let entries = table_entries(items);
    let pos = 2 + table.len() as int;
    // The page length and page.
    assert(w.subrange(pos, pos + 4) =~= u32_le_bytes(page.len() as int));
    crate::lemma_u32_le_round_trip(page.len() as int);
    assert(w.subrange(pos + 4, pos + 4 + page.len() as int) =~= page);
    // The payloads.
    assert(w.subrange(pos + 4 + page.len() as int, w.len() as int) =~= payloads);
    lemma_parse_payloads_round(w, pos + 4 + page.len() as int, items);
}

/// Law: a response whose first byte is not the protocol version is rejected
/// as a format error.
pub proof fn lemma_response_version_rejected(b: Seq<u8>)
    requires
        b.len() >= 5,
        b[0] != 0,
    ensures
        spec_parse_response(b) == Err::<(Seq<(Seq<u8>, Seq<u8>)>, Seq<u8>), ErrorKind>(
            ErrorKind::RequestFormatError,
        ),
{
}

/// Law: cutting the last byte off any encoded response makes the read fail
/// with an input-output error: the stream ends inside the response.
pub proof fn lemma_response_truncation(items: Seq<(Seq<u8>, Seq<u8>)>, page: Seq<u8>)
    requires
        encodable(items, page),
        valid_utf8(page),
    ensures
        spec_parse_response(spec_response_bytes(items, page).drop_last()) == Err::<
            (Seq<(Seq<u8>, Seq<u8>)>, Seq<u8>),
            ErrorKind,
        >(ErrorKind::IOError),
{
    let body = spec_body_bytes(items, page);
    let b = spec_response_bytes(items, page);
    let t = b.drop_last();
    assert(body.len() >= 6);
    assert(b.len() == 5 + body.len());
    assert(t.len() == b.len() - 1);
    assert(t[0] == b[0] && b[0] == 0);
    assert(t.subrange(1, 5) =~= b.subrange(1, 5));
    assert(b.subrange(1, 5) =~= u32_le_bytes(body.len() as int));
    crate::lemma_u32_le_round_trip(body.len() as int);
    assert(t.len() < 5 + body.len());
}


} // verus!
