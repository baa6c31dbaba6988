//! The chunked transfer over Matrix to-device messages: the sender cuts a
//! file into 48 KiB chunks and sends each as base64; the receiver writes
//! each new chunk at its offset, reports progress by distinct chunks, and
//! once every chunk has come checks the SHA-256 digest before handing the
//! file over.
use crate::codec::{
    base64_decoding, base64_encoding, base64_error_message, decode_base64, decode_capacity, decoded,
    encode_base64, sha256_hex, sha256_hex_string,
};
use crate::events::{FileChunkContent, FileOfferContent};
use crate::matrix_client::{offer_data_is, offer_is};
use crate::paths::{join_path, path_join};
use crate::state::{
    make_progress, progress_is, ActiveTransfer, ActiveTransfers, FileOfferData, PendingOffer,
    PendingOffers, TransferModel, TransferProgress,
};
use crate::text::{owned, push_text};
use std::collections::HashSet;
use vstd::prelude::*;
use vstd::utf8::encode_utf8;

verus! {

broadcast use vstd::std_specs::hash::group_hash_axioms;

/// Bytes per chunk.
pub const CHUNK_SIZE: usize = 48 * 1024;

/// Chunks a sender keeps in flight at once.
pub const CONCURRENT_SENDS: usize = 4;

/// The number of chunks of a file of `len` bytes.
pub open spec fn chunk_total(len: nat) -> nat {
    ((len + CHUNK_SIZE - 1) as nat) / (CHUNK_SIZE as nat)
}

/// Where chunk `i` starts.
pub open spec fn chunk_start(i: nat) -> nat {
    (i * CHUNK_SIZE) as nat
}

/// Where chunk `i` of a file of `len` bytes ends.
pub open spec fn chunk_end(i: nat, len: nat) -> nat {
    if chunk_start(i) + CHUNK_SIZE < len {
        (chunk_start(i) + CHUNK_SIZE) as nat
    } else {
        len
    }
}

/// The bytes of chunk `i` of `file`.
pub open spec fn chunk_data(file: Seq<u8>, i: nat) -> Seq<u8> {
    file.subrange(chunk_start(i) as int, chunk_end(i, file.len()) as int)
}

/// `data` with `bytes` written at `offset`, grown with zeros first where
/// it is too short.
pub open spec fn write_at(data: Seq<u8>, offset: nat, bytes: Seq<u8>) -> Seq<u8> {
    let end = offset + bytes.len();
    let len = if end > data.len() {
        end
    } else {
        data.len()
    };
    Seq::new(
        len,
        |i: int|
            if offset <= i < end {
                bytes[i - offset]
            } else if i < data.len() {
                data[i]
            } else {
                0u8
            },
    )
}

/// The transfer after chunk `index` with payload `bytes` is taken in.
pub open spec fn accept_chunk(t: TransferModel, index: u32, bytes: Seq<u8>) -> TransferModel {
    TransferModel {
        received: t.received.insert(index),
        data: write_at(t.data, chunk_start(index as nat), bytes),
        ..t
    }
}

/// The bytes reported as received: a full chunk per distinct chunk index,
/// capped at the file size.
pub open spec fn received_bytes(t: TransferModel) -> u64 {
    if t.received.len() * CHUNK_SIZE < t.total_size {
        (t.received.len() * CHUNK_SIZE) as u64
    } else {
        t.total_size
    }
}

/// As many distinct chunks have come as the file has (counted as `u32`).
pub open spec fn is_complete(t: TransferModel) -> bool {
    (#[verifier::truncate] (t.received.len() as u32)) >= t.total_chunks
}

/// The received data cut to the file size (taken as a `usize`).
pub open spec fn assembled(t: TransferModel) -> Seq<u8> {
    let cut = #[verifier::truncate] (t.total_size as usize);
    if (cut as nat) <= t.data.len() {
        t.data.take(cut as int)
    } else {
        t.data
    }
}

/// The assembled data has the digest the offer announced.
pub open spec fn hash_matches(t: TransferModel) -> bool {
    sha256_hex(assembled(t)) == t.sha256
}

/// A transfer that has just been prepared for `offer`, to be saved at
/// `save_path`.
pub open spec fn fresh_transfer(offer: FileOfferData, save_path: Seq<char>) -> TransferModel {
    TransferModel {
        offer_id: offer.offer_id@,
        filename: offer.filename@,
        total_size: offer.size,
        sha256: offer.sha256@,
        received: Set::empty(),
        total_chunks: #[verifier::truncate] (chunk_total(offer.size as nat) as u32),
        data: Seq::empty(),
        save_path,
    }
}

/// A file received in full whose digest matched.
pub struct CompletedTransfer {
    pub offer_id: String,
    pub progress: TransferProgress,
    pub save_path: String,
    pub data: Vec<u8>,
}

/// The error a transfer ends with when its digest did not match.
pub const HASH_MISMATCH_MESSAGE: &'static str = "Hash verification failed";

/// What taking in a chunk led to.
pub enum ChunkOutcome {
    /// The chunk had come before; nothing changed.
    Duplicate,
    /// The chunk was stored; more are to come.
    Stored(TransferProgress),
    /// The last chunk came and the digest matched; the transfer is over.
    Completed(CompletedTransfer),
    /// The last chunk came but the digest did not match; the transfer is
    /// dropped.
    HashMismatch(TransferProgress),
}

/// The number of chunks of a file of `len` bytes.
pub fn chunk_count(len: usize) -> (r: u32)
    requires
        len + CHUNK_SIZE <= usize::MAX,
    ensures
        r == #[verifier::truncate] (chunk_total(len as nat) as u32),
{
    #[verifier::truncate]
    (((len + CHUNK_SIZE - 1) / CHUNK_SIZE) as u32)
}

/// Where chunk `index` of a file of `len` bytes starts and ends.
pub fn chunk_bounds(index: u32, len: usize) -> (r: (usize, usize))
    requires
        len + CHUNK_SIZE <= usize::MAX,
        (index as nat) < chunk_total(len as nat),
    ensures
        r.0 == chunk_start(index as nat),
        r.1 == chunk_end(index as nat, len as nat),
        r.0 < r.1 <= len,
        r.1 - r.0 <= CHUNK_SIZE,
{
    let start = (index as usize) * CHUNK_SIZE;
    assert(start < len) by (nonlinear_arith)
        requires
            (index as int) < (len as int + CHUNK_SIZE - 1) / (CHUNK_SIZE as int),
            start == index * CHUNK_SIZE,
    ;
    let end = if start + CHUNK_SIZE < len {
        start + CHUNK_SIZE
    } else {
        len
    };
    (start, end)
}

/// The chunk event for chunk `index` of `file_data`.
pub fn build_chunk(offer_id: &str, file_data: &[u8], index: u32, total_chunks: u32) -> (r:
    FileChunkContent)
    requires
        file_data@.len() + CHUNK_SIZE <= usize::MAX,
        (index as nat) < chunk_total(file_data@.len()),
    ensures
        r.offer_id@ == offer_id@,
        r.chunk_index == index,
        r.total_chunks == total_chunks,
        r.data@ == base64_encoding(chunk_data(file_data@, index as nat)),
        base64_decoding(r.data@) == decoded(chunk_data(file_data@, index as nat)),
{
    let (start, end) = chunk_bounds(index, file_data.len());
    let bytes = &file_data[start..end];
    FileChunkContent {
        offer_id: owned(offer_id),
        chunk_index: index,
        total_chunks,
        data: encode_base64(bytes),
    }
}

/// The progress a sender reports once `sent_total` bytes have gone out.
pub fn sending_progress(offer_id: &str, sent_total: u64, total_size: u64) -> (r: TransferProgress)
    ensures
        progress_is(
            r,
            offer_id@,
            if sent_total < total_size {
                sent_total
            } else {
                total_size
            },
            total_size,
            "sending"@,
        ),
{
    let bytes = if sent_total < total_size {
        sent_total
    } else {
        total_size
    };
    make_progress(offer_id, bytes, total_size, "sending")
}

/// The offer to serve for `offer_id`.
pub fn pending_offer<'a>(pending: &'a PendingOffers, offer_id: &str) -> (r: Result<
    &'a PendingOffer,
    String,
>)
    requires
        pending.wf(),
    ensures
        match r {
            Ok(p) => pending@.contains_key(offer_id@) && *p == pending@[offer_id@],
            Err(e) => !pending@.contains_key(offer_id@) && e@ == "No pending offer: "@
                + offer_id@,
        },
{
    match pending.get(offer_id) {
        Some(p) => Ok(p),
        None => {
            let mut e = owned("No pending offer: ");
            push_text(&mut e, offer_id);
            Err(e)
        },
    }
}

/// Prepares to receive `offer` into `save_dir`, on a platform whose path
/// separator is `sep`, replacing any transfer of the same offer. The file
/// is to be saved under its offered name in `save_dir`.
pub fn start_receiving(
    transfers: &mut ActiveTransfers,
    offer: &FileOfferData,
    save_dir: &str,
    sep: char,
) -> (r: Result<(), String>)
    requires
        old(transfers).wf(),
        offer.size + CHUNK_SIZE <= usize::MAX,
    ensures
        r is Ok,
        final(transfers).wf(),
        final(transfers)@.remove(offer.offer_id@) == old(transfers)@.remove(offer.offer_id@),
        final(transfers)@.contains_key(offer.offer_id@),
        final(transfers)@[offer.offer_id@]@ == fresh_transfer(
            *offer,
            final(transfers)@[offer.offer_id@]@.save_path,
        ),
        sep == '/' ==> final(transfers)@[offer.offer_id@]@.save_path == path_join(
            save_dir@,
            offer.filename@,
        ),
{
    let save_path = join_path(sep, save_dir, offer.filename.as_str());
    let total_chunks = chunk_count(offer.size as usize);
    let transfer = ActiveTransfer {
        offer_id: owned(offer.offer_id.as_str()),
        filename: owned(offer.filename.as_str()),
        total_size: offer.size,
        sha256: owned(offer.sha256.as_str()),
        chunks_received: HashSet::new(),
        total_chunks,
        data: Vec::new(),
        save_path,
    };
    proof {
        assert(transfer@ == fresh_transfer(*offer, transfer.save_path@));
    }
    transfers.insert(owned(offer.offer_id.as_str()), transfer);
    proof {
        assert(final(transfers)@.remove(offer.offer_id@) =~= old(transfers)@.remove(
            offer.offer_id@,
        ));
    }
    Ok(())
}

/// Writes `bytes` into `data` at `offset`, growing it with zeros first
/// where it is too short.
fn write_bytes_at(data: &mut Vec<u8>, offset: usize, bytes: &[u8])
    requires
        offset + bytes@.len() <= usize::MAX,
    ensures
        final(data)@ == write_at(old(data)@, offset as nat, bytes@),
{
    let end = offset + bytes.len();
    while data.len() < end
        invariant
            end == offset + bytes@.len(),
            data@.len() <= end || data@.len() == old(data)@.len(),
            data@.len() >= old(data)@.len(),
            forall|i: int| 0 <= i < old(data)@.len() ==> data@[i] == old(data)@[i],
            forall|i: int| old(data)@.len() <= i < data@.len() ==> data@[i] == 0u8,
        decreases end - data@.len(),
    {
        data.push(0u8);
    }
    let n = bytes.len();
    for k in 0..n
        invariant
            n == bytes@.len(),
            end == offset + n,
            data@.len() == write_at(old(data)@, offset as nat, bytes@).len(),
            forall|i: int|
                0 <= i < data@.len() ==> data@[i] == (if offset <= i < offset + k {
                    bytes@[i - offset]
                } else if i < old(data)@.len() {
                    old(data)@[i]
                } else {
                    0u8
                }),
    {
        data.set(offset + k, bytes[k]);
    }
    assert(data@ =~= write_at(old(data)@, offset as nat, bytes@));
}

/// A set of `u32` values is finite and has at most 2^32 elements.
proof fn lemma_u32_set_bounded(s: Set<u32>)
    ensures
        s.finite(),
        s.len() <= 0x1_0000_0000,
{
    let full = Set::<u32>::range(0, u32::MAX).insert(u32::MAX);
    vstd::set_lib::range_set_properties::<u32>(0, u32::MAX);
    assert(s.subset_of(full)) by {
        assert forall|x: u32| s.contains(x) implies full.contains(x) by {
            if x != u32::MAX {
                assert(Set::<u32>::range(0, u32::MAX).contains(x));
            }
        }
    }
    vstd::set_lib::lemma_len_subset(s, full);
    vstd::set_lib::lemma_set_subset_finite(full, s);
}

/// The offset of the chunk and the most its payload can decode to fit the
/// address space (always so where `usize` has 64 bits and the payload is
/// in memory).
pub open spec fn chunk_fits(chunk: FileChunkContent) -> bool {
    chunk.chunk_index as int * CHUNK_SIZE + decode_capacity(encode_utf8(chunk.data@).len())
        <= usize::MAX
}

/// What taking in `chunk` does to the transfers `before`, leaving
/// `after` and answering `r`.
///
/// A chunk of an unknown transfer, or one whose payload is not base64, is
/// refused and changes nothing; a chunk that came before changes nothing.
/// A new chunk is written at its offset and counted; when as many distinct
/// chunks have come as the file has, the data is cut to the file size and
/// its SHA-256 digest compared with the offer's, and the transfer leaves
/// the table either way.
pub open spec fn takes_chunk(
    before: Map<Seq<char>, ActiveTransfer>,
    chunk: FileChunkContent,
    after: Map<Seq<char>, ActiveTransfer>,
    r: Result<ChunkOutcome, String>,
) -> bool {
    let key = chunk.offer_id@;
    if !before.contains_key(key) {
        &&& after == before
        &&& r matches Err(e) && e@ == "No active transfer for: "@ + key
    } else if before[key]@.received.contains(chunk.chunk_index) {
        &&& after == before
        &&& r matches Ok(ChunkOutcome::Duplicate)
    } else {
        match base64_decoding(chunk.data@) {
            Err(fault) => {
                &&& after == before
                &&& r matches Err(e) && e@ == "Base64 decode error: "@ + base64_error_message(
                    fault,
                )
            },
            Ok(bytes) => {
                let t = accept_chunk(before[key]@, chunk.chunk_index, bytes);
                if !is_complete(t) {
                    &&& after.remove(key) == before.remove(key)
                    &&& after.contains_key(key)
                    &&& after[key]@ == t
                    &&& r matches Ok(ChunkOutcome::Stored(p)) && progress_is(
                        p,
                        key,
                        received_bytes(t),
                        t.total_size,
                        "receiving"@,
                    )
                } else if hash_matches(t) {
                    &&& after == before.remove(key)
                    &&& r matches Ok(ChunkOutcome::Completed(c)) && {
                        &&& c.offer_id@ == key
                        &&& c.save_path@ == t.save_path
                        &&& c.data@ == assembled(t)
                        &&& progress_is(
                            c.progress,
                            key,
                            received_bytes(t),
                            t.total_size,
                            "receiving"@,
                        )
                    }
                } else {
                    &&& after == before.remove(key)
                    &&& r matches Ok(ChunkOutcome::HashMismatch(p)) && progress_is(
                        p,
                        key,
                        received_bytes(t),
                        t.total_size,
                        "receiving"@,
                    )
                }
            },
        }
    }
}

/// Takes in one chunk of a transfer being received, as `takes_chunk`
/// describes.
pub fn handle_incoming_chunk(transfers: &mut ActiveTransfers, chunk: FileChunkContent) -> (r:
    Result<ChunkOutcome, String>)
    requires
        old(transfers).wf(),
        chunk_fits(chunk),
    ensures
        final(transfers).wf(),
        takes_chunk(old(transfers)@, chunk, final(transfers)@, r),
        r matches Ok(ChunkOutcome::Completed(c)) ==> sha256_hex(c.data@) == old(
            transfers,
        )@[chunk.offer_id@]@.sha256,
{
    let ghost before = transfers@;
    let ghost key = chunk.offer_id@;
    let mut t = match transfers.remove(chunk.offer_id.as_str()) {
        Some(t) => t,
        None => {
            proof {
                assert(transfers@ =~= before);
            }
            let mut e = owned("No active transfer for: ");
            push_text(&mut e, chunk.offer_id.as_str());
            return Err(e);
        },
    };
    proof {
        assert(before.remove(key).insert(key, t) =~= before);
    }
    if t.chunks_received.contains(&chunk.chunk_index) {
        transfers.insert(owned(chunk.offer_id.as_str()), t);
        return Ok(ChunkOutcome::Duplicate);
    }
    let bytes = match decode_base64(chunk.data.as_str()) {
        Ok(b) => b,
        Err(fault) => {
            transfers.insert(owned(chunk.offer_id.as_str()), t);
            let mut e = owned("Base64 decode error: ");
            let m = fault.message();
            push_text(&mut e, m.as_str());
            return Err(e);
        },
    };
    let ghost t0 = t@;
    let ghost t1 = accept_chunk(t0, chunk.chunk_index, bytes@);
    let offset = (chunk.chunk_index as usize) * CHUNK_SIZE;
    write_bytes_at(&mut t.data, offset, bytes.as_slice());
    t.chunks_received.insert(chunk.chunk_index);
    assert(t@ == t1);
    proof {
        lemma_u32_set_bounded(t.chunks_received@);
    }
    let count = t.chunks_received.len();
    let counted = (count as u64) * (CHUNK_SIZE as u64);
    let received = if counted < t.total_size {
        counted
    } else {
        t.total_size
    };
    let progress = make_progress(chunk.offer_id.as_str(), received, t.total_size, "receiving");
    if (#[verifier::truncate] (count as u32)) < t.total_chunks {
        transfers.insert(owned(chunk.offer_id.as_str()), t);
        proof {
            assert(transfers@.remove(key) =~= before.remove(key));
        }
        return Ok(ChunkOutcome::Stored(progress));
    }
    t.data.truncate(#[verifier::truncate] (t.total_size as usize));
    assert(t.data@ == assembled(t1));
    let computed = sha256_hex_string(t.data.as_slice());
    if computed == t.sha256 {
        Ok(
            ChunkOutcome::Completed(
                CompletedTransfer {
                    offer_id: owned(chunk.offer_id.as_str()),
                    progress,
                    save_path: t.save_path,
                    data: t.data,
                },
            ),
        )
    } else {
        Ok(ChunkOutcome::HashMismatch(progress))
    }
}

} // verus!

verus! {

/// The chunks of `file` taken in, in the order `order`, by a transfer that
/// starts as `t`; a chunk that came before is skipped, as
/// `handle_incoming_chunk` skips it.
pub open spec fn receive_in_order(t: TransferModel, file: Seq<u8>, order: Seq<u32>) -> TransferModel
    decreases order.len(),
{
    if order.len() == 0 {
        t
    } else {
        let before = receive_in_order(t, file, order.drop_last());
        let i = order.last();
        if before.received.contains(i) {
            before
        } else {
            accept_chunk(before, i, chunk_data(file, i as nat))
        }
    }
}

/// A transfer of `file` that has nothing yet.
pub open spec fn awaits_file(t: TransferModel, file: Seq<u8>) -> bool {
    &&& t.received == Set::<u32>::empty()
    &&& t.data == Seq::<u8>::empty()
    &&& t.total_size == file.len()
    &&& t.total_chunks == chunk_total(file.len()) as u32
}

/// What the transfer holds is the file wherever a received chunk lies.
spec fn consistent(t: TransferModel, file: Seq<u8>, order: Seq<u32>) -> bool {
    &&& t.total_size == file.len()
    &&& t.total_chunks == chunk_total(file.len()) as u32
    &&& forall|x: u32|
        #![trigger t.received.contains(x)]
        #![trigger order.contains(x)]
        t.received.contains(x) <==> order.contains(x)
    &&& t.data.len() <= file.len()
    &&& forall|x: u32| #[trigger]
        t.received.contains(x) ==> chunk_end(x as nat, file.len()) <= t.data.len()
    &&& forall|j: int|
        0 <= j < t.data.len() && t.received.contains((j / CHUNK_SIZE as int) as u32) ==> t.data[j]
            == file[j]
}

proof fn lemma_chunk_of_byte(j: int, len: nat)
    requires
        0 <= j < len,
    ensures
        (j / CHUNK_SIZE as int) < chunk_total(len),
        chunk_start((j / CHUNK_SIZE as int) as nat) <= j < chunk_end(
            (j / CHUNK_SIZE as int) as nat,
            len,
        ),
{
    let c = CHUNK_SIZE as int;
    let q = j / c;
    assert(q * c <= j < q * c + c) by (nonlinear_arith)
        requires
            c == 49152,
            q == j / c,
            j >= 0,
    ;
    assert(q < (len + c - 1) / c) by (nonlinear_arith)
        requires
            c == 49152,
            q * c <= j,
            j < len,
    ;
}

proof fn lemma_chunk_in_file(i: nat, len: nat)
    requires
        i < chunk_total(len),
    ensures
        chunk_start(i) < chunk_end(i, len) <= len,
        chunk_end(i, len) - chunk_start(i) <= CHUNK_SIZE,
        i + 1 == chunk_total(len) ==> chunk_end(i, len) == len,
{
    let c = CHUNK_SIZE as int;
    assert(i * c < len) by (nonlinear_arith)
        requires
            c == 49152,
            i < (len + c - 1) / c,
    ;
    assert(i + 1 == (len + c - 1) / c ==> len <= i * c + c) by (nonlinear_arith)
        requires
            c == 49152,
    ;
}

proof fn lemma_accept_consistent(t: TransferModel, file: Seq<u8>, order: Seq<u32>, i: u32)
    requires
        consistent(t, file, order),
        chunk_total(file.len()) <= u32::MAX,
        (i as nat) < chunk_total(file.len()),
        !t.received.contains(i),
    ensures
        consistent(accept_chunk(t, i, chunk_data(file, i as nat)), file, order.push(i)),
{
    let len = file.len();
    let t2 = accept_chunk(t, i, chunk_data(file, i as nat));
    let s = chunk_start(i as nat);
    let e = chunk_end(i as nat, len);
    lemma_chunk_in_file(i as nat, len);
    assert(chunk_data(file, i as nat).len() == e - s);
    assert forall|x: u32| t2.received.contains(x) <==> order.push(i).contains(x) by {
        if order.push(i).contains(x) && x != i {
            let k = choose|k: int| 0 <= k < order.push(i).len() && order.push(i)[k] == x;
            assert(order[k] == x);
        }
        if order.contains(x) {
            let k = choose|k: int| 0 <= k < order.len() && order[k] == x;
            assert(order.push(i)[k] == x);
        }
        if x == i {
            assert(order.push(i)[order.len() as int] == i);
        }
    }
    assert forall|j: int|
        0 <= j < t2.data.len() && t2.received.contains(
            (j / CHUNK_SIZE as int) as u32,
        ) implies t2.data[j] == file[j] by {
        lemma_chunk_of_byte(j, len);
        let q = (j / CHUNK_SIZE as int) as u32;
        assert(q as int == j / CHUNK_SIZE as int);
        if s <= j < e {
            assert(q == i) by (nonlinear_arith)
                requires
                    s == i * 49152,
                    s <= j < s + 49152,
                    q == j / 49152,
            ;
        } else if q == i {
            assert(false);
        } else {
            assert(t.received.contains(q));
            assert(chunk_end(q as nat, len) <= t.data.len());
        }
    }
}

proof fn lemma_receive_consistent(t: TransferModel, file: Seq<u8>, order: Seq<u32>)
    requires
        awaits_file(t, file),
        chunk_total(file.len()) <= u32::MAX,
        forall|k: int| 0 <= k < order.len() ==> (order[k] as nat) < chunk_total(file.len()),
    ensures
        consistent(receive_in_order(t, file, order), file, order),
        receive_in_order(t, file, order).sha256 == t.sha256,
        receive_in_order(t, file, order).save_path == t.save_path,
    decreases order.len(),
{
    if order.len() == 0 {
        assert(t.received =~= Set::<u32>::empty());
    } else {
        let prefix = order.drop_last();
        let i = order.last();
        lemma_receive_consistent(t, file, prefix);
        let before = receive_in_order(t, file, prefix);
        assert(order == prefix.push(i));
        if before.received.contains(i) {
            assert forall|x: u32| before.received.contains(x) <==> order.contains(x) by {
                if order.contains(x) {
                    let k = choose|k: int| 0 <= k < order.len() && order[k] == x;
                    if k < prefix.len() {
                        assert(prefix[k] == x);
                    }
                }
                if prefix.contains(x) {
                    let k = choose|k: int| 0 <= k < prefix.len() && prefix[k] == x;
                    assert(order[k] == x);
                }
            }
        } else {
            lemma_accept_consistent(before, file, prefix, i);
        }
    }
}

/// Chunks of a file taken in, in any order and with repeats: once every
/// chunk has come the transfer is complete, reports the whole file as
/// received, and holds exactly the file; while one is missing it is not
/// complete. The digest check then passes exactly when the offer
/// announced the digest of the file.
pub proof fn lemma_chunks_reassemble(t: TransferModel, file: Seq<u8>, order: Seq<u32>)
    requires
        awaits_file(t, file),
        chunk_total(file.len()) <= u32::MAX,
        file.len() <= usize::MAX,
        forall|k: int| 0 <= k < order.len() ==> (order[k] as nat) < chunk_total(file.len()),
    ensures
        (forall|i: u32| (i as nat) < chunk_total(file.len()) ==> order.contains(i)) ==> {
            let r = receive_in_order(t, file, order);
            &&& is_complete(r)
            &&& assembled(r) == file
            &&& received_bytes(r) == file.len()
            &&& hash_matches(r) <==> t.sha256 == sha256_hex(file)
        },
        (exists|i: u32| (i as nat) < chunk_total(file.len()) && !order.contains(i)) ==> !is_complete(
            receive_in_order(t, file, order),
        ),
{
    let n = chunk_total(file.len());
    let len = file.len();
    let r = receive_in_order(t, file, order);
    lemma_receive_consistent(t, file, order);
    lemma_u32_set_bounded(r.received);
    let range = Set::<u32>::range(0, n as u32);
    vstd::set_lib::range_set_properties::<u32>(0, n as u32);
    assert(r.received.subset_of(range)) by {
        assert forall|x: u32| r.received.contains(x) implies range.contains(x) by {
            let k = choose|k: int| 0 <= k < order.len() && order[k] == x;
        }
    }
    if forall|i: u32| (i as nat) < n ==> order.contains(i) {
        assert(r.received =~= range);
        if n > 0 {
            lemma_chunk_in_file((n - 1) as nat, len);
            assert(r.received.contains((n - 1) as u32));
        }
        assert(r.data.len() == len);
        assert forall|j: int| 0 <= j < len implies r.data[j] == file[j] by {
            lemma_chunk_of_byte(j, len);
        }
        assert(r.data =~= file);
        assert(r.data.take(len as int) =~= file);
        assert(n * CHUNK_SIZE >= len) by (nonlinear_arith)
            requires
                n == (len + 49151) / 49152,
        ;
        assert(r.received.len() == n);
        assert(is_complete(r));
        assert(assembled(r) == file);
        assert(received_bytes(r) == file.len());
    }
    if exists|i: u32| (i as nat) < n && !order.contains(i) {
        let m = choose|i: u32| (i as nat) < n && !order.contains(i);
        assert(r.received.subset_of(range.remove(m)));
        vstd::set_lib::lemma_len_subset(r.received, range.remove(m));
    }
}

/// The chunk indices of `chunks`, in order.
pub open spec fn chunk_indices(chunks: Seq<FileChunkContent>) -> Seq<u32> {
    Seq::new(chunks.len(), |k: int| chunks[k].chunk_index)
}

/// A run of calls that take in chunks of `file` for the transfer prepared
/// from `offer`, as `lemma_chunk_calls_reassemble` describes it.
spec fn receiving_calls(
    offer: FileOfferData,
    save_path: Seq<char>,
    file: Seq<u8>,
    chunks: Seq<FileChunkContent>,
    states: Seq<Map<Seq<char>, ActiveTransfer>>,
    results: Seq<Result<ChunkOutcome, String>>,
) -> bool {
    &&& offer.size == file.len()
    &&& offer.sha256@ == sha256_hex(file)
    &&& file.len() <= usize::MAX
    &&& chunk_total(file.len()) <= u32::MAX
    &&& chunks.len() > 0
    &&& states.len() == chunks.len() + 1
    &&& results.len() == chunks.len()
    &&& states[0].contains_key(offer.offer_id@)
    &&& states[0][offer.offer_id@]@ == fresh_transfer(offer, save_path)
    &&& forall|k: int|
        #![trigger chunks[k]]
        0 <= k < chunks.len() ==> {
            &&& chunks[k].offer_id@ == offer.offer_id@
            &&& (chunks[k].chunk_index as nat) < chunk_total(file.len())
            &&& base64_decoding(chunks[k].data@) == decoded(
                chunk_data(file, chunks[k].chunk_index as nat),
            )
            &&& takes_chunk(states[k], chunks[k], states[k + 1], results[k])
        }
    &&& forall|i: u32| (i as nat) < chunk_total(file.len()) ==> chunk_indices(chunks).contains(i)
    &&& !chunk_indices(chunks).drop_last().contains(chunks.last().chunk_index)
}

/// Before call `m` (not the last), the transfer holds what the chunks
/// taken in so far make, and no other transfer has changed.
proof fn lemma_calls_before(
    offer: FileOfferData,
    save_path: Seq<char>,
    file: Seq<u8>,
    chunks: Seq<FileChunkContent>,
    states: Seq<Map<Seq<char>, ActiveTransfer>>,
    results: Seq<Result<ChunkOutcome, String>>,
    m: int,
)
    requires
        receiving_calls(offer, save_path, file, chunks, states, results),
        0 <= m < chunks.len(),
    ensures
        states[m].contains_key(offer.offer_id@),
        states[m][offer.offer_id@]@ == receive_in_order(
            fresh_transfer(offer, save_path),
            file,
            chunk_indices(chunks).take(m),
        ),
        states[m].remove(offer.offer_id@) == states[0].remove(offer.offer_id@),
    decreases m,
{
    if m == 0 {
        assert(chunk_indices(chunks).take(0) =~= Seq::<u32>::empty());
    } else {
        lemma_calls_before(offer, save_path, file, chunks, states, results, m - 1);
        lemma_call_step(offer, save_path, file, chunks, states, results, m - 1);
    }
}

/// Call `k`, not the last, stores its chunk or skips a repeat.
proof fn lemma_call_step(
    offer: FileOfferData,
    save_path: Seq<char>,
    file: Seq<u8>,
    chunks: Seq<FileChunkContent>,
    states: Seq<Map<Seq<char>, ActiveTransfer>>,
    results: Seq<Result<ChunkOutcome, String>>,
    k: int,
)
    requires
        receiving_calls(offer, save_path, file, chunks, states, results),
        0 <= k < chunks.len() - 1,
        states[k].contains_key(offer.offer_id@),
        states[k][offer.offer_id@]@ == receive_in_order(
            fresh_transfer(offer, save_path),
            file,
            chunk_indices(chunks).take(k),
        ),
        states[k].remove(offer.offer_id@) == states[0].remove(offer.offer_id@),
    ensures
        match results[k] {
            Ok(ChunkOutcome::Stored(_)) => true,
            Ok(ChunkOutcome::Duplicate) => true,
            _ => false,
        },
        states[k + 1].contains_key(offer.offer_id@),
        states[k + 1][offer.offer_id@]@ == receive_in_order(
            fresh_transfer(offer, save_path),
            file,
            chunk_indices(chunks).take(k + 1),
        ),
        states[k + 1].remove(offer.offer_id@) == states[0].remove(offer.offer_id@),
{
    let key = offer.offer_id@;
    let t0 = fresh_transfer(offer, save_path);
    let idx = chunk_indices(chunks);
    let n = chunks.len() as int;
    let c = chunks[k];
    assert(c.offer_id@ == key);
    assert(takes_chunk(states[k], c, states[k + 1], results[k]));
    assert(idx.take(k + 1).drop_last() =~= idx.take(k));
    assert(idx.take(k + 1).last() == c.chunk_index);
    if !states[k][key]@.received.contains(c.chunk_index) {
        let order = idx.take(k + 1);
        let missing = chunks.last().chunk_index;
        assert(chunks[n - 1] == chunks.last());
        assert((missing as nat) < chunk_total(file.len()));
        assert(!order.contains(missing)) by {
            if order.contains(missing) {
                let j = choose|j: int| 0 <= j < order.len() && order[j] == missing;
                assert(idx.drop_last()[j] == missing);
            }
        }
        assert forall|j: int| 0 <= j < order.len() implies (order[j] as nat) < chunk_total(
            file.len(),
        ) by {
            assert(chunks[j].chunk_index == order[j]);
        }
        assert(t0.received == Set::<u32>::empty());
        lemma_chunks_reassemble(t0, file, order);
    }
    assert(states[k + 1].remove(key) =~= states[k].remove(key));
}

/// Receiving a file by calls of `handle_incoming_chunk`: a transfer is
/// prepared from an offer of `file` that announces the file's digest;
/// then the chunks the sender cuts from the file (as `build_chunk` makes
/// them) are taken in one call after another, in any order and with
/// repeats, call `k` going from `states[k]` to `states[k + 1]` and
/// answering `results[k]`, until the last call brings the one chunk still
/// missing. Each call before the last stores its chunk or skips a repeat,
/// and the transfer then holds what the chunks so far make; the last call
/// completes the transfer with exactly the file, to be saved where the
/// transfer was prepared to save it, and the transfer leaves the table.
/// No other transfer changes along the way.
pub proof fn lemma_chunk_calls_reassemble(
    offer: FileOfferData,
    save_path: Seq<char>,
    file: Seq<u8>,
    chunks: Seq<FileChunkContent>,
    states: Seq<Map<Seq<char>, ActiveTransfer>>,
    results: Seq<Result<ChunkOutcome, String>>,
)
    requires
        offer.size == file.len(),
        offer.sha256@ == sha256_hex(file),
        file.len() <= usize::MAX,
        chunk_total(file.len()) <= u32::MAX,
        chunks.len() > 0,
        states.len() == chunks.len() + 1,
        results.len() == chunks.len(),
        states[0].contains_key(offer.offer_id@),
        states[0][offer.offer_id@]@ == fresh_transfer(offer, save_path),
        forall|k: int| 0 <= k < chunks.len() ==> #[trigger] chunks[k].offer_id@ == offer.offer_id@,
        forall|k: int|
            0 <= k < chunks.len() ==> (#[trigger] chunks[k].chunk_index as nat) < chunk_total(
                file.len(),
            ),
        forall|k: int|
            0 <= k < chunks.len() ==> base64_decoding(#[trigger] chunks[k].data@) == decoded(
                chunk_data(file, chunks[k].chunk_index as nat),
            ),
        forall|i: u32| (i as nat) < chunk_total(file.len()) ==> chunk_indices(chunks).contains(i),
        !chunk_indices(chunks).drop_last().contains(chunks.last().chunk_index),
        forall|k: int|
            0 <= k < chunks.len() ==> takes_chunk(
                states[k],
                #[trigger] chunks[k],
                states[k + 1],
                results[k],
            ),
    ensures
        forall|k: int|
            0 <= k < chunks.len() - 1 ==> {
                &&& match #[trigger] results[k] {
                    Ok(ChunkOutcome::Stored(_)) => true,
                    Ok(ChunkOutcome::Duplicate) => true,
                    _ => false,
                }
                &&& states[k + 1].contains_key(offer.offer_id@)
                &&& states[k + 1][offer.offer_id@]@ == receive_in_order(
                    fresh_transfer(offer, save_path),
                    file,
                    chunk_indices(chunks).take(k + 1),
                )
            },
        results.last() matches Ok(ChunkOutcome::Completed(c)) && {
            &&& c.offer_id@ == offer.offer_id@
            &&& c.data@ == file
            &&& c.save_path@ == save_path
        },
        states.last() == states[0].remove(offer.offer_id@),
{
    let key = offer.offer_id@;
    let t0 = fresh_transfer(offer, save_path);
    let idx = chunk_indices(chunks);
    let n = chunks.len() as int;
    assert(receiving_calls(offer, save_path, file, chunks, states, results));
    assert forall|k: int| 0 <= k < n - 1 implies {
        &&& match #[trigger] results[k] {
            Ok(ChunkOutcome::Stored(_)) => true,
            Ok(ChunkOutcome::Duplicate) => true,
            _ => false,
        }
        &&& states[k + 1].contains_key(key)
        &&& states[k + 1][key]@ == receive_in_order(t0, file, idx.take(k + 1))
    } by {
        lemma_calls_before(offer, save_path, file, chunks, states, results, k);
        lemma_call_step(offer, save_path, file, chunks, states, results, k);
    }
    lemma_calls_before(offer, save_path, file, chunks, states, results, n - 1);
    let c = chunks[n - 1];
    assert(c == chunks.last());
    assert(c.offer_id@ == key);
    assert(takes_chunk(states[n - 1], c, states[n], results[n - 1]));
    assert(idx.take(n - 1) =~= idx.drop_last());
    assert(idx.drop_last().push(c.chunk_index) =~= idx);
    assert(t0.received == Set::<u32>::empty());
    assert forall|j: int| 0 <= j < idx.len() implies (idx[j] as nat) < chunk_total(file.len()) by {
        assert(chunks[j].chunk_index == idx[j]);
    }
    lemma_chunks_reassemble(t0, file, idx);
    lemma_receive_consistent(t0, file, idx);
    lemma_receive_consistent(t0, file, idx.drop_last());
    let before = receive_in_order(t0, file, idx.drop_last());
    assert(!before.received.contains(c.chunk_index));
    let after = accept_chunk(before, c.chunk_index, chunk_data(file, c.chunk_index as nat));
    assert(after == receive_in_order(t0, file, idx));
    assert(is_complete(after));
    assert(hash_matches(after));
    assert(states.last() == states[n]);
    assert(states[n] =~= states[n - 1].remove(key));
    assert(states[n - 1].remove(key) =~= states[0].remove(key));
}

} // verus!

verus! {

/// The first `k` chunks of `file`, one after another.
pub open spec fn chunks_joined(file: Seq<u8>, k: nat) -> Seq<u8>
    decreases k,
{
    if k == 0 {
        Seq::empty()
    } else {
        chunks_joined(file, (k - 1) as nat) + chunk_data(file, (k - 1) as nat)
    }
}

proof fn lemma_chunks_joined_prefix(file: Seq<u8>, k: nat)
    requires
        k <= chunk_total(file.len()),
    ensures
        chunks_joined(file, k) == file.take(
            if k * CHUNK_SIZE < file.len() {
                k * CHUNK_SIZE
            } else {
                file.len() as int
            },
        ),
    decreases k,
{
    if k > 0 {
        let i = (k - 1) as nat;
        lemma_chunks_joined_prefix(file, i);
        lemma_chunk_in_file(i, file.len());
        assert(i * CHUNK_SIZE < file.len());
        assert(k * CHUNK_SIZE == i * CHUNK_SIZE + CHUNK_SIZE) by (nonlinear_arith)
            requires
                k == i + 1,
        ;
        assert(chunks_joined(file, k) =~= file.take(chunk_end(i, file.len()) as int));
        assert(chunk_end(i, file.len()) == (if k * CHUNK_SIZE < file.len() {
            k * CHUNK_SIZE
        } else {
            file.len() as int
        }));
    } else {
        assert(file.take(0) =~= Seq::<u8>::empty());
    }
}

/// The chunks a sender cuts a file into are non-empty, at most 48 KiB
/// each, and put back one after another they give the file.
pub proof fn lemma_chunks_cover_file(file: Seq<u8>)
    ensures
        chunks_joined(file, chunk_total(file.len())) == file,
        forall|i: nat|
            i < chunk_total(file.len()) ==> 0 < #[trigger] chunk_data(file, i).len() <= CHUNK_SIZE,
{
    let n = chunk_total(file.len());
    lemma_chunks_joined_prefix(file, n);
    assert(n * CHUNK_SIZE >= file.len()) by (nonlinear_arith)
        requires
            n == (file.len() + 49151) / 49152,
    ;
    assert(file.take(file.len() as int) =~= file);
    assert forall|i: nat| i < n implies 0 < #[trigger] chunk_data(file, i).len() <= CHUNK_SIZE by {
        lemma_chunk_in_file(i, file.len());
    }
}

/// A transfer hands data over to be saved only if its SHA-256 digest is
/// the one the offer announced, and the transfer then leaves the table.
/// When the last missing chunk arrives and the data it completes has
/// another digest, nothing is handed over: the answer is a digest failure
/// and the transfer leaves the table.
pub proof fn lemma_only_matching_data_is_handed_over(
    before: Map<Seq<char>, ActiveTransfer>,
    chunk: FileChunkContent,
    after: Map<Seq<char>, ActiveTransfer>,
    r: Result<ChunkOutcome, String>,
)
    requires
        takes_chunk(before, chunk, after, r),
    ensures
        r matches Ok(ChunkOutcome::Completed(c)) ==> {
            &&& before.contains_key(chunk.offer_id@)
            &&& sha256_hex(c.data@) == before[chunk.offer_id@]@.sha256
            &&& !after.contains_key(chunk.offer_id@)
        },
        ({
            let key = chunk.offer_id@;
            &&& before.contains_key(key)
            &&& !before[key]@.received.contains(chunk.chunk_index)
            &&& base64_decoding(chunk.data@) is Ok
            &&& (before[key]@.received.len() + 1) as u32 >= before[key]@.total_chunks
            &&& sha256_hex(
                assembled(
                    accept_chunk(
                        before[key]@,
                        chunk.chunk_index,
                        base64_decoding(chunk.data@)->Ok_0,
                    ),
                ),
            ) != before[key]@.sha256
        }) ==> {
            &&& r matches Ok(ChunkOutcome::HashMismatch(_))
            &&& !after.contains_key(chunk.offer_id@)
        },
{
    let key = chunk.offer_id@;
    if before.contains_key(key) && !before[key]@.received.contains(chunk.chunk_index) {
        lemma_u32_set_bounded(before[key]@.received);
        assert(before[key]@.received.insert(chunk.chunk_index).len() == before[key]@.received.len()
            + 1);
    }
}

/// Taking in a new chunk never lowers the reported progress, which never
/// passes the file size.
pub proof fn lemma_progress_grows(t: TransferModel, index: u32, bytes: Seq<u8>)
    requires
        !t.received.contains(index),
    ensures
        received_bytes(t) <= received_bytes(accept_chunk(t, index, bytes)) <= t.total_size,
{
    lemma_u32_set_bounded(t.received);
    assert(t.received.insert(index).len() == t.received.len() + 1);
}

} // verus!

verus! {

/// Checks a file that arrived whole by another route (a peer-to-peer
/// download) against the digest its offer announced, as every transfer is
/// checked: accepted exactly when the lowercase hex SHA-256 digest of
/// `data` is `expected_sha256`, refused with the digest error otherwise.
pub fn verify_download(data: &[u8], expected_sha256: &str) -> (r: Result<(), String>)
    ensures
        r is Ok <==> sha256_hex(data@) == expected_sha256@,
        r matches Err(e) ==> e@ == HASH_MISMATCH_MESSAGE@,
{
    let computed = sha256_hex_string(data);
    let expected = owned(expected_sha256);
    if computed == expected {
        Ok(())
    } else {
        Err(owned(HASH_MISMATCH_MESSAGE))
    }
}

/// What a download does once the direct (peer-to-peer) route has been
/// tried.
#[derive(Clone, Copy, Debug, PartialEq, Eq, Structural)]
pub enum DownloadStep {
    /// The file came whole by the direct route and matched its digest.
    Done,
    /// The file is to be asked for over Matrix instead.
    FallBack,
}

/// The step after the direct route: `arrived` holds the bytes it brought,
/// or nothing where it failed or timed out. The download is done exactly
/// when bytes arrived and their digest is the one the offer announced;
/// otherwise it falls back to the chunked transfer over Matrix.
pub fn after_direct_attempt(arrived: Option<&[u8]>, expected_sha256: &str) -> (r: DownloadStep)
    ensures
        r == DownloadStep::Done <==> match arrived {
            Some(data) => sha256_hex(data@) == expected_sha256@,
            None => false,
        },
{
    match arrived {
        Some(data) => match verify_download(data, expected_sha256) {
            Ok(()) => DownloadStep::Done,
            Err(_) => DownloadStep::FallBack,
        },
        None => DownloadStep::FallBack,
    }
}

/// Keeps `offer` to serve it on request, under its identifier.
pub fn record_offer(pending: &mut PendingOffers, offer: PendingOffer)
    requires
        old(pending).wf(),
    ensures
        final(pending).wf(),
        final(pending)@ == old(pending)@.insert(offer.offer_id@, offer),
{
    let key = owned(offer.offer_id.as_str());
    pending.insert(key, offer);
}

/// Drops the transfer and the served offer with identifier `offer_id`;
/// everything else stays.
pub fn cancel_transfer(active: &mut ActiveTransfers, pending: &mut PendingOffers, offer_id: &str)
    requires
        old(active).wf(),
        old(pending).wf(),
    ensures
        final(active).wf(),
        final(pending).wf(),
        final(active)@ == old(active)@.remove(offer_id@),
        final(pending)@ == old(pending)@.remove(offer_id@),
{
    active.remove(offer_id);
    pending.remove(offer_id);
}

/// Drops every transfer and every served offer, as logging out does.
pub fn forget_all(active: &mut ActiveTransfers, pending: &mut PendingOffers)
    ensures
        final(active).wf(),
        final(pending).wf(),
        final(active)@ == Map::<Seq<char>, ActiveTransfer>::empty(),
        final(pending)@ == Map::<Seq<char>, PendingOffer>::empty(),
{
    active.clear();
    pending.clear();
}

/// A file offered to a room and then downloaded by chunks: the transfer
/// the downloader prepares from the offer awaits exactly that file, and
/// once every chunk has come, in any order, it holds the file and its
/// digest check passes.
pub proof fn lemma_offered_file_downloads(
    content: FileOfferContent,
    kept: PendingOffer,
    file_path: Seq<char>,
    file: Seq<u8>,
    room_id: Seq<char>,
    description: Option<Seq<char>>,
    device_id: Option<Seq<char>>,
    iroh_ticket: Option<Seq<char>>,
    seen: FileOfferData,
    sender: Seq<char>,
    save_path: Seq<char>,
    order: Seq<u32>,
)
    requires
        offer_is(
            content,
            kept,
            content.offer_id@,
            file_path,
            file,
            room_id,
            description,
            device_id,
            iroh_ticket,
        ),
        offer_data_is(seen, content, sender, room_id),
        chunk_total(file.len()) <= u32::MAX,
        file.len() <= usize::MAX,
        forall|i: u32| (i as nat) < chunk_total(file.len()) ==> order.contains(i),
        forall|k: int| 0 <= k < order.len() ==> (order[k] as nat) < chunk_total(file.len()),
    ensures
        awaits_file(fresh_transfer(seen, save_path), file),
        is_complete(receive_in_order(fresh_transfer(seen, save_path), file, order)),
        assembled(receive_in_order(fresh_transfer(seen, save_path), file, order)) == file,
        hash_matches(receive_in_order(fresh_transfer(seen, save_path), file, order)),
{
    let t = fresh_transfer(seen, save_path);
    assert(t.received == Set::<u32>::empty());
    lemma_chunks_reassemble(t, file, order);
}

} // verus!
