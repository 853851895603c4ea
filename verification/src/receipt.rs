//! The receipt model: logs, the receipt payload, and the typed receipt with
//! its canonical RLP encoding and encoded length.

use vstd::prelude::*;

use crate::bloom::{accrue, bloom_of_keys, bloom_or, input_mask, key_mask,
    lemma_bloom_set_independent, lemma_or_assoc, lemma_or_len, lemma_or_zero,
    lemma_topics_mask_len, topics_mask, zero_bloom, BloomKey};
use crate::rlp::{lemma_trim_is_be_bytes, push_header, push_string, push_uint, rlp_list,
    rlp_string, rlp_string_len, rlp_uint};
use crate::types::{trim_leading_zeros, zero_bytes, Address, Bloom, B256, U256};

verus! {

/// Version of the deposit nonce field in the receipt.
pub const OPTIMISM_DEPOSIT_NONCE_VERSION: u32 = 1;

/// One emitted log entry.
#[derive(Clone)]
pub struct Log {
    /// Contract that emitted this log.
    pub address: Address,
    /// Topics of the log, at most four in practice.
    pub topics: Vec<B256>,
    /// Arbitrary length data.
    pub data: Vec<u8>,
}

/// Payload shared by all receipt variants. The two trailing fields are a
/// forward-compatible extension, present only for deposit transactions.
#[derive(Clone)]
pub struct ReceiptPayload {
    /// Indicates whether the transaction was executed successfully.
    pub success: bool,
    /// Total gas used by the transaction.
    pub cumulative_gas_used: U256,
    /// A bloom filter that contains indexed information of logs for quick searching.
    pub logs_bloom: Bloom,
    /// Logs generated during the execution of the transaction.
    pub logs: Vec<Log>,
    /// Nonce of the deposit transaction persisted during execution.
    pub deposit_nonce: Option<u64>,
    /// Version of the deposit nonce field in the receipt.
    pub deposit_nonce_version: Option<u32>,
}

/// Receipt containing the result of a transaction execution.
#[derive(Clone)]
pub struct Receipt {
    /// Type of receipt: 0 for legacy, otherwise the EIP-2718 envelope id.
    pub tx_type: u8,
    /// Detailed payload of the receipt.
    pub payload: ReceiptPayload,
}

/// What the bloom filter reads of a log: address bytes and topic words.
pub open spec fn log_key(l: Log) -> BloomKey {
    (l.address.bytes@, l.topics@.map_values(|t: B256| t.bytes@))
}

/// The bloom keys of a log sequence, in order.
pub open spec fn log_keys(ls: Seq<Log>) -> Seq<BloomKey> {
    ls.map_values(|l: Log| log_key(l))
}

impl Log {
    /// Well-formed: a 20-byte address and 32-byte topics.
    pub open spec fn wf(&self) -> bool {
        &&& self.address.wf()
        &&& forall|i: int| 0 <= i < self.topics@.len() ==> (#[trigger] self.topics@[i]).wf()
    }
}

impl ReceiptPayload {
    /// Well-formed: the parts are well-formed, the bloom filter is exactly
    /// the union of the logs' contributions, and the deposit nonce version
    /// is present if and only if the nonce is, always with value 1.
    pub open spec fn wf(&self) -> bool {
        &&& self.cumulative_gas_used.wf()
        &&& self.logs_bloom.wf()
        &&& forall|i: int| 0 <= i < self.logs@.len() ==> (#[trigger] self.logs@[i]).wf()
        &&& self.logs_bloom.bytes@ == bloom_of_keys(log_keys(self.logs@))
        &&& self.deposit_nonce_version.is_some() <==> self.deposit_nonce.is_some()
        &&& self.deposit_nonce_version matches Some(v) ==> v == OPTIMISM_DEPOSIT_NONCE_VERSION
    }
}

impl Receipt {
    /// Well-formed: the payload is.
    pub open spec fn wf(&self) -> bool {
        self.payload.wf()
    }
}

/// Concatenated RLP encodings of the topic words, in order.
pub open spec fn topics_payload_rlp(ts: Seq<B256>) -> Seq<u8>
    decreases ts.len(),
{
    if ts.len() == 0 {
        Seq::empty()
    } else {
        rlp_string(ts[0].bytes@) + topics_payload_rlp(ts.drop_first())
    }
}

/// RLP encoding of one log: the list `[address, topics, data]`.
pub open spec fn log_rlp(l: Log) -> Seq<u8> {
    rlp_list(
        rlp_string(l.address.bytes@) + rlp_list(topics_payload_rlp(l.topics@)) + rlp_string(
            l.data@,
        ),
    )
}

/// Concatenated RLP encodings of the logs, in order.
pub open spec fn logs_payload_rlp(ls: Seq<Log>) -> Seq<u8>
    decreases ls.len(),
{
    if ls.len() == 0 {
        Seq::empty()
    } else {
        log_rlp(ls[0]) + logs_payload_rlp(ls.drop_first())
    }
}

/// RLP encoding of an optional trailing integer field: nothing when absent.
pub open spec fn opt_uint_rlp(o: Option<nat>) -> Seq<u8> {
    match o {
        Some(n) => rlp_uint(n),
        None => Seq::empty(),
    }
}

/// The concatenated field encodings of a payload, in declared order; the two
/// trailing fields appear only when present.
pub open spec fn payload_fields_rlp(p: ReceiptPayload) -> Seq<u8> {
    rlp_uint(if p.success {
        1nat
    } else {
        0nat
    }) + rlp_uint(p.cumulative_gas_used.value()) + rlp_string(p.logs_bloom.bytes@) + rlp_list(
        logs_payload_rlp(p.logs@),
    ) + opt_uint_rlp(
        match p.deposit_nonce {
            Some(n) => Some(n as nat),
            None => None,
        },
    ) + opt_uint_rlp(
        match p.deposit_nonce_version {
            Some(v) => Some(v as nat),
            None => None,
        },
    )
}

/// RLP encoding of a payload: the field encodings as one list.
pub open spec fn payload_rlp(p: ReceiptPayload) -> Seq<u8> {
    rlp_list(payload_fields_rlp(p))
}

/// Encoding of a receipt: the payload list alone for the legacy type 0,
/// otherwise one byte holding the type followed by the payload list.
pub open spec fn receipt_rlp(r: Receipt) -> Seq<u8> {
    if r.tx_type == 0 {
        payload_rlp(r.payload)
    } else {
        seq![r.tx_type] + payload_rlp(r.payload)
    }
}

/// Topic encodings concatenate over sequence concatenation.
proof fn lemma_topics_payload_concat(a: Seq<B256>, b: Seq<B256>)
    ensures
        topics_payload_rlp(a + b) == topics_payload_rlp(a) + topics_payload_rlp(b),
    decreases a.len(),
{
    if a.len() == 0 {
        assert(a + b =~= b);
        assert(topics_payload_rlp(a) + topics_payload_rlp(b) =~= topics_payload_rlp(b));
    } else {
        assert((a + b).len() > 0);
        assert((a + b)[0] == a[0]);
        assert((a + b).drop_first() =~= a.drop_first() + b);
        lemma_topics_payload_concat(a.drop_first(), b);
        assert(rlp_string(a[0].bytes@) + (topics_payload_rlp(a.drop_first()) + topics_payload_rlp(
            b,
        )) =~= (rlp_string(a[0].bytes@) + topics_payload_rlp(a.drop_first()))
            + topics_payload_rlp(b));
    }
}

/// One more topic extends the concatenated encodings by that topic's encoding.
proof fn lemma_topics_payload_snoc(ts: Seq<B256>, i: int)
    requires
        0 <= i < ts.len(),
    ensures
        topics_payload_rlp(ts.take(i + 1)) == topics_payload_rlp(ts.take(i)) + rlp_string(
            ts[i].bytes@,
        ),
{
    assert(ts.take(i + 1) =~= ts.take(i) + seq![ts[i]]);
    lemma_topics_payload_concat(ts.take(i), seq![ts[i]]);
    assert(seq![ts[i]].drop_first() =~= Seq::<B256>::empty());
    assert(topics_payload_rlp(Seq::<B256>::empty()) == Seq::<u8>::empty());
    assert(topics_payload_rlp(seq![ts[i]]) =~= rlp_string(ts[i].bytes@));
}

/// Log encodings concatenate over sequence concatenation.
proof fn lemma_logs_payload_concat(a: Seq<Log>, b: Seq<Log>)
    ensures
        logs_payload_rlp(a + b) == logs_payload_rlp(a) + logs_payload_rlp(b),
    decreases a.len(),
{
    if a.len() == 0 {
        assert(a + b =~= b);
        assert(logs_payload_rlp(a) + logs_payload_rlp(b) =~= logs_payload_rlp(b));
    } else {
        assert((a + b).len() > 0);
        assert((a + b)[0] == a[0]);
        assert((a + b).drop_first() =~= a.drop_first() + b);
        lemma_logs_payload_concat(a.drop_first(), b);
        assert(log_rlp(a[0]) + (logs_payload_rlp(a.drop_first()) + logs_payload_rlp(b)) =~= (
        log_rlp(a[0]) + logs_payload_rlp(a.drop_first())) + logs_payload_rlp(b));
    }
}

/// One more log extends the concatenated encodings by that log's encoding.
proof fn lemma_logs_payload_snoc(ls: Seq<Log>, i: int)
    requires
        0 <= i < ls.len(),
    ensures
        logs_payload_rlp(ls.take(i + 1)) == logs_payload_rlp(ls.take(i)) + log_rlp(ls[i]),
{
    assert(ls.take(i + 1) =~= ls.take(i) + seq![ls[i]]);
    lemma_logs_payload_concat(ls.take(i), seq![ls[i]]);
    assert(seq![ls[i]].drop_first() =~= Seq::<Log>::empty());
    assert(logs_payload_rlp(Seq::<Log>::empty()) == Seq::<u8>::empty());
    assert(logs_payload_rlp(seq![ls[i]]) =~= log_rlp(ls[i]));
}

/// A prefix of the topics contributes at most the whole concatenation.
proof fn lemma_topics_payload_prefix(ts: Seq<B256>, i: int)
    requires
        0 <= i <= ts.len(),
    ensures
        topics_payload_rlp(ts.take(i)).len() <= topics_payload_rlp(ts).len(),
{
    assert(ts =~= ts.take(i) + ts.skip(i));
    lemma_topics_payload_concat(ts.take(i), ts.skip(i));
}

/// A prefix of the logs contributes at most the whole concatenation.
proof fn lemma_logs_payload_prefix(ls: Seq<Log>, i: int)
    requires
        0 <= i <= ls.len(),
    ensures
        logs_payload_rlp(ls.take(i)).len() <= logs_payload_rlp(ls).len(),
{
    assert(ls =~= ls.take(i) + ls.skip(i));
    lemma_logs_payload_concat(ls.take(i), ls.skip(i));
}

/// Returns the length in bytes of one log's RLP encoding.
fn log_length(l: &Log) -> (r: usize)
    requires
        log_rlp(*l).len() <= usize::MAX,
    ensures
        r as nat == log_rlp(*l).len(),
{
    let a = rlp_string_len(&l.address.bytes);
    let mut tlen: usize = 0;
    assert(l.topics@.take(0) =~= Seq::<B256>::empty());
    let mut j: usize = 0;
    while j < l.topics.len()
        invariant
            0 <= j <= l.topics@.len(),
            tlen as nat == topics_payload_rlp(l.topics@.take(j as int)).len(),
            log_rlp(*l).len() <= usize::MAX,
        decreases l.topics@.len() - j,
    {
        proof {
            lemma_topics_payload_snoc(l.topics@, j as int);
            lemma_topics_payload_prefix(l.topics@, j + 1);
        }
        let s = rlp_string_len(&l.topics[j].bytes);
        tlen = tlen + s;
        j = j + 1;
    }
    assert(l.topics@.take(l.topics@.len() as int) =~= l.topics@);
    let th = crate::rlp::header_len(tlen);
    let t = th + tlen;
    let d = rlp_string_len(&l.data);
    let fields = a + t + d;
    let fh = crate::rlp::header_len(fields);
    fh + fields
}

impl ReceiptPayload {
    /// Returns the length in bytes of the payload's RLP encoding; it always
    /// equals the number of bytes that `encode` appends.
    pub fn length(&self) -> (r: usize)
        requires
            payload_rlp(*self).len() <= usize::MAX,
        ensures
            r as nat == payload_rlp(*self).len(),
    {
        let f1 = crate::rlp::rlp_uint_len(
            if self.success {
                1
            } else {
                0
            },
        );
        let gas = trim_leading_zeros(&self.cumulative_gas_used.bytes);
        proof {
            lemma_trim_is_be_bytes(self.cumulative_gas_used.bytes@);
        }
        let f2 = rlp_string_len(&gas);
        let f3 = rlp_string_len(&self.logs_bloom.bytes);
        let mut llen: usize = 0;
        assert(self.logs@.take(0) =~= Seq::<Log>::empty());
        let mut i: usize = 0;
        while i < self.logs.len()
            invariant
                0 <= i <= self.logs@.len(),
                llen as nat == logs_payload_rlp(self.logs@.take(i as int)).len(),
                payload_rlp(*self).len() <= usize::MAX,
            decreases self.logs@.len() - i,
        {
            proof {
                lemma_logs_payload_snoc(self.logs@, i as int);
                lemma_logs_payload_prefix(self.logs@, i + 1);
            }
            let s = log_length(&self.logs[i]);
            llen = llen + s;
            i = i + 1;
        }
        assert(self.logs@.take(self.logs@.len() as int) =~= self.logs@);
        let lh = crate::rlp::header_len(llen);
        let f4 = lh + llen;
        let f5 = match self.deposit_nonce {
            Some(n) => crate::rlp::rlp_uint_len(n),
            None => 0,
        };
        let f6 = match self.deposit_nonce_version {
            Some(v) => crate::rlp::rlp_uint_len(v as u64),
            None => 0,
        };
        let fields = f1 + f2 + f3 + f4 + f5 + f6;
        let fh = crate::rlp::header_len(fields);
        fh + fields
    }
}

impl Receipt {
    /// Returns the length in bytes of the encoded receipt: the payload's
    /// encoded length, plus one for the type byte of a non-legacy receipt.
    /// It always equals the number of bytes that `encode` appends.
    pub fn length(&self) -> (r: usize)
        requires
            receipt_rlp(*self).len() <= usize::MAX,
        ensures
            r as nat == receipt_rlp(*self).len(),
    {
        let mut payload_length = self.payload.length();
        if self.tx_type != 0 {
            payload_length = payload_length + 1;
        }
        payload_length
    }
}

/// Appends the RLP encoding of the topic list to `out`.
fn encode_topics(ts: &Vec<B256>, out: &mut Vec<u8>)
    ensures
        final(out)@ == old(out)@ + rlp_list(topics_payload_rlp(ts@)),
{
    let mut tmp: Vec<u8> = Vec::new();
    let mut i: usize = 0;
    assert(ts@.take(0) =~= Seq::<B256>::empty());
    while i < ts.len()
        invariant
            0 <= i <= ts@.len(),
            tmp@ == topics_payload_rlp(ts@.take(i as int)),
        decreases ts@.len() - i,
    {
        push_string(&ts[i].bytes, &mut tmp);
        proof {
            lemma_topics_payload_snoc(ts@, i as int);
        }
        i = i + 1;
    }
    assert(ts@.take(ts@.len() as int) =~= ts@);
    push_header(0xc0, 0xf7, tmp.len(), out);
    out.append(&mut tmp);
    assert(final(out)@ =~= old(out)@ + rlp_list(topics_payload_rlp(ts@)));
}

/// Appends the RLP encoding of one log to `out`.
fn encode_log(l: &Log, out: &mut Vec<u8>)
    ensures
        final(out)@ == old(out)@ + log_rlp(*l),
{
    let mut fields: Vec<u8> = Vec::new();
    push_string(&l.address.bytes, &mut fields);
    encode_topics(&l.topics, &mut fields);
    push_string(&l.data, &mut fields);
    assert(fields@ =~= rlp_string(l.address.bytes@) + rlp_list(topics_payload_rlp(l.topics@))
        + rlp_string(l.data@));
    push_header(0xc0, 0xf7, fields.len(), out);
    out.append(&mut fields);
    assert(final(out)@ =~= old(out)@ + log_rlp(*l));
}

/// Appends the RLP encoding of the log list to `out`.
fn encode_logs(ls: &Vec<Log>, out: &mut Vec<u8>)
    ensures
        final(out)@ == old(out)@ + rlp_list(logs_payload_rlp(ls@)),
{
    let mut tmp: Vec<u8> = Vec::new();
    let mut i: usize = 0;
    assert(ls@.take(0) =~= Seq::<Log>::empty());
    while i < ls.len()
        invariant
            0 <= i <= ls@.len(),
            tmp@ == logs_payload_rlp(ls@.take(i as int)),
        decreases ls@.len() - i,
    {
        encode_log(&ls[i], &mut tmp);
        proof {
            lemma_logs_payload_snoc(ls@, i as int);
        }
        i = i + 1;
    }
    assert(ls@.take(ls@.len() as int) =~= ls@);
    push_header(0xc0, 0xf7, tmp.len(), out);
    out.append(&mut tmp);
    assert(final(out)@ =~= old(out)@ + rlp_list(logs_payload_rlp(ls@)));
}

/// Derives the bloom filter of a log sequence: the union of the three-bit
/// contributions of every log's address and every topic, over an all-zero
/// filter.
pub fn derive_bloom(logs: &Vec<Log>) -> (r: Bloom)
    ensures
        r.wf(),
        r.bytes@ == bloom_of_keys(log_keys(logs@)),
{
    let ghost keys = log_keys(logs@);
    let mut filter = zero_bytes(256);
    assert(filter@ =~= zero_bloom());
    assert(keys.take(0) =~= Seq::<BloomKey>::empty());
    let mut i: usize = 0;
    while i < logs.len()
        invariant
            0 <= i <= logs@.len(),
            keys == log_keys(logs@),
            keys.len() == logs@.len(),
            filter@.len() == 256,
            filter@ == bloom_of_keys(keys.take(i as int)),
        decreases logs@.len() - i,
    {
        let ghost before = filter@;
        let ghost ts = logs@[i as int].topics@.map_values(|t: B256| t.bytes@);
        let ghost amask = input_mask(logs@[i as int].address.bytes@);
        accrue(&mut filter, &logs[i].address.bytes);
        proof {
            lemma_or_len(before, amask);
            lemma_topics_mask_len(ts.take(0));
            assert(ts.take(0) =~= Seq::<Seq<u8>>::empty());
            lemma_or_zero(bloom_or(before, amask));
            assert(filter@ == bloom_or(bloom_or(before, amask), topics_mask(ts.take(0))));
        }
        let mut j: usize = 0;
        while j < logs[i].topics.len()
            invariant
                0 <= j <= ts.len(),
                0 <= i < logs@.len(),
                ts == logs@[i as int].topics@.map_values(|t: B256| t.bytes@),
                ts.len() == logs@[i as int].topics@.len(),
                amask == input_mask(logs@[i as int].address.bytes@),
                before.len() == 256,
                filter@.len() == 256,
                filter@ == bloom_or(bloom_or(before, amask), topics_mask(ts.take(j as int))),
            decreases ts.len() - j,
        {
            accrue(&mut filter, &logs[i].topics[j].bytes);
            proof {
                assert(ts[j as int] == logs@[i as int].topics@[j as int].bytes@);
                assert(ts.take(j + 1).drop_last() =~= ts.take(j as int));
                assert(ts.take(j + 1).last() == ts[j as int]);
                let x = bloom_or(before, amask);
                lemma_or_len(before, amask);
                lemma_topics_mask_len(ts.take(j as int));
                lemma_or_assoc(x, topics_mask(ts.take(j as int)), input_mask(ts[j as int]));
            }
            j = j + 1;
        }
        proof {
            assert(ts.take(ts.len() as int) =~= ts);
            assert(keys.take(i + 1).drop_last() =~= keys.take(i as int));
            assert(keys.take(i + 1).last() == keys[i as int]);
            assert(keys[i as int] == log_key(logs@[i as int]));
            lemma_topics_mask_len(ts);
            lemma_or_len(amask, topics_mask(ts));
            lemma_or_assoc(before, amask, topics_mask(ts));
            assert(key_mask(keys[i as int]) == bloom_or(amask, topics_mask(ts)));
            assert(filter@ == bloom_of_keys(keys.take(i + 1)));
        }
        i = i + 1;
    }
    assert(keys.take(keys.len() as int) =~= keys);
    Bloom { bytes: filter }
}

impl ReceiptPayload {
    /// Encodes the payload as an RLP list into the `out` buffer, appending
    /// exactly `payload_rlp(*self)`.
    pub fn encode(&self, out: &mut Vec<u8>)
        ensures
            final(out)@ == old(out)@ + payload_rlp(*self),
    {
        let mut fields: Vec<u8> = Vec::new();
        push_uint(
            if self.success {
                1
            } else {
                0
            },
            &mut fields,
        );
        let gas = trim_leading_zeros(&self.cumulative_gas_used.bytes);
        proof {
            lemma_trim_is_be_bytes(self.cumulative_gas_used.bytes@);
        }
        push_string(&gas, &mut fields);
        push_string(&self.logs_bloom.bytes, &mut fields);
        encode_logs(&self.logs, &mut fields);
        if let Some(n) = self.deposit_nonce {
            push_uint(n, &mut fields);
        }
        if let Some(v) = self.deposit_nonce_version {
            push_uint(v as u64, &mut fields);
        }
        assert(fields@ =~= payload_fields_rlp(*self));
        push_header(0xc0, 0xf7, fields.len(), out);
        out.append(&mut fields);
        assert(final(out)@ =~= old(out)@ + payload_rlp(*self));
    }
}

impl Receipt {
    /// Encodes the receipt into the `out` buffer, appending exactly
    /// `receipt_rlp(*self)`: the payload list, preceded by the one-byte
    /// type for a non-legacy receipt.
    pub fn encode(&self, out: &mut Vec<u8>)
        ensures
            final(out)@ == old(out)@ + receipt_rlp(*self),
    {
        if self.tx_type != 0 {
            out.push(self.tx_type);
        }
        self.payload.encode(out);
        proof {
            if self.tx_type != 0 {
                assert(old(out)@.push(self.tx_type) + payload_rlp(self.payload) =~= old(out)@ + (
                seq![self.tx_type] + payload_rlp(self.payload)));
            }
        }
    }

    /// Constructs a new receipt: the bloom filter is derived from the logs,
    /// and both deposit nonce fields are absent.
    pub fn new(tx_type: u8, success: bool, cumulative_gas_used: U256, logs: Vec<Log>) -> (r:
        Receipt)
        requires
            cumulative_gas_used.wf(),
            forall|i: int| 0 <= i < logs@.len() ==> (#[trigger] logs@[i]).wf(),
        ensures
            r.wf(),
            r.tx_type == tx_type,
            r.payload.success == success,
            r.payload.cumulative_gas_used == cumulative_gas_used,
            r.payload.logs == logs,
            r.payload.logs_bloom.bytes@ == bloom_of_keys(log_keys(logs@)),
            r.payload.deposit_nonce is None,
            r.payload.deposit_nonce_version is None,
    {
        let logs_bloom = derive_bloom(&logs);
        Receipt {
            tx_type,
            payload: ReceiptPayload {
                success,
                cumulative_gas_used,
                logs_bloom,
                logs,
                deposit_nonce: None,
                deposit_nonce_version: None,
            },
        }
    }

    /// Adds a deposit nonce to the receipt: the nonce field takes the given
    /// value and the version field the fixed constant 1; every other field
    /// is left as it was.
    pub fn with_deposit_nonce(self, deposit_nonce: u64) -> (r: Receipt)
        ensures
            r.tx_type == self.tx_type,
            r.payload.success == self.payload.success,
            r.payload.cumulative_gas_used == self.payload.cumulative_gas_used,
            r.payload.logs_bloom == self.payload.logs_bloom,
            r.payload.logs == self.payload.logs,
            r.payload.deposit_nonce == Some(deposit_nonce),
            r.payload.deposit_nonce_version == Some(OPTIMISM_DEPOSIT_NONCE_VERSION),
            self.wf() ==> r.wf(),
    {
        let mut r = self;
        r.payload.deposit_nonce = Some(deposit_nonce);
        r.payload.deposit_nonce_version = Some(OPTIMISM_DEPOSIT_NONCE_VERSION);
        r
    }
}

impl Default for Log {
    /// The all-zero log: zero address, no topics, no data.
    fn default() -> (d: Log)
        ensures
            d.wf(),
            d.address.wf(),
            forall|i: int| 0 <= i < 20 ==> d.address.bytes@[i] == 0u8,
            d.topics@.len() == 0,
            d.data@.len() == 0,
    {
        Log { address: Address::zero(), topics: Vec::new(), data: Vec::new() }
    }
}

impl Default for ReceiptPayload {
    /// The all-zero payload: failure flag clear, zero gas, empty filter,
    /// no logs, extension fields absent.
    fn default() -> (d: ReceiptPayload)
        ensures
            d.wf(),
            d.success == false,
            d.cumulative_gas_used.value() == 0,
            d.logs@.len() == 0,
            forall|i: int| 0 <= i < 256 ==> d.logs_bloom.bytes@[i] == 0u8,
            d.deposit_nonce is None,
            d.deposit_nonce_version is None,
    {
        let d = ReceiptPayload {
            success: false,
            cumulative_gas_used: U256::zero(),
            logs_bloom: Bloom::zero(),
            logs: Vec::new(),
            deposit_nonce: None,
            deposit_nonce_version: None,
        };
        proof {
            assert(log_keys(d.logs@) =~= Seq::<BloomKey>::empty());
            assert(bloom_of_keys(log_keys(d.logs@)) == zero_bloom());
            assert(d.logs_bloom.bytes@ =~= zero_bloom());
        }
        d
    }
}

impl Default for Receipt {
    /// The all-zero receipt: legacy type over the all-zero payload.
    fn default() -> (d: Receipt)
        ensures
            d.wf(),
            d.tx_type == 0,
            d.payload.success == false,
            d.payload.logs@.len() == 0,
            d.payload.deposit_nonce is None,
    {
        Receipt { tx_type: 0, payload: ReceiptPayload::default() }
    }
}

/// A legacy receipt (type 0) encodes with no leading type byte: its bytes
/// are exactly the payload's list encoding, a list header followed by the
/// concatenated field encodings.
pub proof fn lemma_legacy_encoding(r: Receipt)
    requires
        r.tx_type == 0,
    ensures
        receipt_rlp(r) == payload_rlp(r.payload),
        receipt_rlp(r) == crate::rlp::rlp_header(0xc0, 0xf7, payload_fields_rlp(r.payload).len())
            + payload_fields_rlp(r.payload),
{
}

/// A typed receipt encodes as its one type byte followed by exactly the
/// payload's list encoding.
pub proof fn lemma_typed_encoding(r: Receipt)
    requires
        r.tx_type != 0,
    ensures
        receipt_rlp(r).len() == 1 + payload_rlp(r.payload).len(),
        receipt_rlp(r)[0] == r.tx_type,
        receipt_rlp(r).skip(1) == payload_rlp(r.payload),
{
    assert(receipt_rlp(r).skip(1) =~= payload_rlp(r.payload));
}

/// Bloom derivation depends only on the set of (address, topics) pairs of
/// the logs: two log sequences with the same set of pairs derive the same
/// filter, whatever their order or repetitions. The pairs carry no log
/// data, so the data plays no part in the filter.
pub proof fn lemma_bloom_ignores_order_and_data(l1: Seq<Log>, l2: Seq<Log>)
    requires
        log_keys(l1).to_set() == log_keys(l2).to_set(),
    ensures
        bloom_of_keys(log_keys(l1)) == bloom_of_keys(log_keys(l2)),
{
    lemma_bloom_set_independent(log_keys(l1), log_keys(l2));
}

} // verus!
