use vstd::prelude::*;

verus! {

/// 128 to the given power: the weight of one seven-bit group of a
/// variable-width integer.
pub open spec fn pow128(k: nat) -> nat
    decreases k,
{
    if k == 0 {
        1
    } else {
        128 * pow128((k - 1) as nat)
    }
}

proof fn lemma_pow128_pos(k: nat)
    ensures
        pow128(k) >= 1,
    decreases k,
{
    if k > 0 {
        lemma_pow128_pos((k - 1) as nat);
    }
}

proof fn lemma_pow128_monotone(a: nat, b: nat)
    requires
        a <= b,
    ensures
        pow128(a) <= pow128(b),
    decreases b,
{
    if a < b && b > 0 {
        lemma_pow128_monotone(a, (b - 1) as nat);
        lemma_pow128_pos((b - 1) as nat);
        assert(pow128(b) == 128 * pow128((b - 1) as nat));
    }
}

proof fn lemma_pow128_values()
    ensures
        pow128(8) == 0x100000000000000,
        pow128(9) == 0x8000000000000000,
{
    assert(pow128(0) == 1);
    assert(pow128(1) == 128);
    assert(pow128(2) == 0x4000);
    assert(pow128(3) == 0x200000);
    assert(pow128(4) == 0x10000000);
    assert(pow128(5) == 0x800000000);
    assert(pow128(6) == 0x40000000000);
    assert(pow128(7) == 0x2000000000000);
    assert(pow128(8) == 0x100000000000000);
    assert(pow128(9) == 0x8000000000000000);
}

/// Reads one variable-width integer at `pos`, `group` seven-bit groups
/// already having been read: the value and the position after it, or
/// nothing when the bytes end too early, a value runs over ten groups,
/// or its tenth group carries more than the one bit a 64-bit value has
/// left.
pub open spec fn spec_parse_varint_rec(s: Seq<u8>, pos: int, group: nat) -> Option<(nat, int)>
    decreases 10 - group,
{
    if pos < 0 || pos >= s.len() || group >= 10 {
        None
    } else {
        let b = s[pos];
        let g = (b & 0x7f) as nat;
        if b < 0x80 {
            if group == 9 && g > 1 {
                None
            } else {
                Some((g, pos + 1))
            }
        } else {
            match spec_parse_varint_rec(s, pos + 1, (group + 1) as nat) {
                Some((v, end)) => Some((g + 128 * v, end)),
                None => None,
            }
        }
    }
}

/// Reads one variable-width integer at `pos`.
pub open spec fn spec_parse_varint(s: Seq<u8>, pos: int) -> Option<(nat, int)> {
    spec_parse_varint_rec(s, pos, 0)
}

/// What a read value is bounded by, and how far the read reaches.
pub proof fn lemma_varint_bounds(s: Seq<u8>, pos: int, group: nat)
    ensures
        spec_parse_varint_rec(s, pos, group) matches Some(r) ==> {
            &&& r.0 < 2 * pow128((if group <= 9 { 9 - group } else { 0 }) as nat)
            &&& pos < r.1 <= s.len()
        },
    decreases 10 - group,
{
    if spec_parse_varint_rec(s, pos, group) is Some && group < 10 {
        let b = s[pos];
        let g = (b & 0x7f) as nat;
        assert((b & 0x7f) < 128) by (bit_vector);
        if b < 0x80 {
            lemma_pow128_pos((9 - group) as nat);
            if group < 9 {
                lemma_pow128_monotone(1, (9 - group) as nat);
            }
        } else {
            lemma_varint_bounds(s, pos + 1, (group + 1) as nat);
            let r1 = spec_parse_varint_rec(s, pos + 1, (group + 1) as nat)->Some_0;
            assert(r1.0 < 2 * pow128((8 - group) as nat));
            assert(pow128((9 - group) as nat) == 128 * pow128((8 - group) as nat));
            assert(g + 128 * r1.0 < 2 * pow128((9 - group) as nat)) by (nonlinear_arith)
                requires
                    g < 128,
                    r1.0 < 2 * pow128((8 - group) as nat),
                    pow128((9 - group) as nat) == 128 * pow128((8 - group) as nat),
            ;
        }
    }
}

/// Reads one variable-width integer, as the decoder runs it.
fn parse_varint_rec(s: &Vec<u8>, pos: usize, group: usize) -> (r: Option<(u64, usize)>)
    ensures
        match spec_parse_varint_rec(s@, pos as int, group as nat) {
            Some(v) => r matches Some(rr) && rr.0 == v.0 && rr.1 == v.1,
            None => r is None,
        },
    decreases 10 - group as int,
{
    if pos >= s.len() || group >= 10 {
        return None;
    }
    let b = s[pos];
    let g = b & 0x7f;
    if b < 0x80 {
        if group == 9 && g > 1 {
            None
        } else {
            Some((g as u64, pos + 1))
        }
    } else {
        match parse_varint_rec(s, pos + 1, group + 1) {
            Some((v, end)) => {
                proof {
                    lemma_varint_bounds(s@, pos + 1 as int, (group + 1) as nat);
                    lemma_pow128_monotone((8 - group) as nat, 8);
                    lemma_pow128_values();
                    assert(g < 128) by (bit_vector)
                        requires
                            g == b & 0x7f,
                    ;
                }
                Some((g as u64 + 128 * v, end))
            },
            None => None,
        }
    }
}

/// Reads one variable-width integer.
pub fn parse_varint(s: &Vec<u8>, pos: usize) -> (r: Option<(u64, usize)>)
    ensures
        match spec_parse_varint(s@, pos as int) {
            Some(v) => r matches Some(rr) && rr.0 == v.0 && rr.1 == v.1,
            None => r is None,
        },
{
    parse_varint_rec(s, pos, 0)
}

/// The encoding of a value as a variable-width integer: seven bits per
/// byte, least significant group first, the high bit marking
/// continuation.
pub open spec fn spec_encode_varint(n: nat) -> Seq<u8>
    decreases n,
{
    if n < 128 {
        seq![n as u8]
    } else {
        seq![((n % 128) + 128) as u8] + spec_encode_varint(n / 128)
    }
}

/// Appends the encoding of a value to a buffer.
pub fn encode_varint(n0: u64, out: &mut Vec<u8>)
    ensures
        final(out)@ == old(out)@ + spec_encode_varint(n0 as nat),
{
    let mut n = n0;
    let ghost target = old(out)@ + spec_encode_varint(n0 as nat);
    while n >= 128
        invariant
            out@ + spec_encode_varint(n as nat) == target,
        decreases n,
    {
        out.push((n % 128 + 128) as u8);
        proof {
            assert(out@ + spec_encode_varint((n / 128) as nat) =~= target);
        }
        n = n / 128;
    }
    out.push(n as u8);
    proof {
        assert(out@ =~= target);
    }
}

/// A value below two to the sixty-fourth reads back from its own
/// encoding, wherever it stands in a buffer, and the read ends right
/// after it.
pub proof fn lemma_varint_round_trip_rec(s: Seq<u8>, pos: int, group: nat, n: nat)
    requires
        0 <= pos,
        group <= 9,
        n < 2 * pow128((9 - group) as nat),
        pos + spec_encode_varint(n).len() <= s.len(),
        s.subrange(pos, pos + spec_encode_varint(n).len() as int) == spec_encode_varint(n),
    ensures
        spec_parse_varint_rec(s, pos, group) == Some((n, pos + spec_encode_varint(n).len())),
    decreases n,
{
    let enc = spec_encode_varint(n);
    if n < 128 {
        assert(enc =~= seq![n as u8]);
        assert(s.subrange(pos, pos + enc.len() as int)[0] == enc[0]);
        assert(s[pos] == n as u8);
        let b = s[pos];
        assert(b < 0x80 && (b & 0x7f) == b) by (bit_vector)
            requires
                b < 128,
        ;
        if group == 9 {
            lemma_pow128_pos(0);
            assert(n < 2);
        }
    } else {
        let b0 = ((n % 128) + 128) as u8;
        assert(enc == seq![b0] + spec_encode_varint(n / 128));
        assert(s.subrange(pos, pos + enc.len() as int)[0] == enc[0]);
        assert(s[pos] == b0);
        let b = s[pos];
        assert(b >= 0x80 && (b & 0x7f) + 128 == b) by (bit_vector)
            requires
                b >= 128,
        ;
        if group == 9 {
            lemma_pow128_pos(0);
            assert(false);
        }
        let n1 = n / 128;
        assert(n1 < 2 * pow128((8 - group) as nat)) by (nonlinear_arith)
            requires
                n < 2 * pow128((9 - group) as nat),
                pow128((9 - group) as nat) == 128 * pow128((8 - group) as nat),
                n1 == n / 128,
        ;
        let enc1 = spec_encode_varint(n1);
        assert(s.subrange(pos + 1, pos + 1 + enc1.len() as int) =~= enc1) by {
            assert forall|i: int| 0 <= i < enc1.len() implies s.subrange(
                pos + 1,
                pos + 1 + enc1.len() as int,
            )[i] == enc1[i] by {
                assert(s.subrange(pos, pos + enc.len() as int)[i + 1] == enc[i + 1]);
            }
        }
        lemma_varint_round_trip_rec(s, pos + 1, (group + 1) as nat, n1);
        assert((b & 0x7f) as nat + 128 * n1 == n);
    }
}

/// A value reads back from its own encoding.
pub proof fn lemma_varint_round_trip(s: Seq<u8>, pos: int, n: nat)
    requires
        0 <= pos,
        n < 0x10000000000000000,
        pos + spec_encode_varint(n).len() <= s.len(),
        s.subrange(pos, pos + spec_encode_varint(n).len() as int) == spec_encode_varint(n),
    ensures
        spec_parse_varint(s, pos) == Some((n, pos + spec_encode_varint(n).len())),
{
    lemma_pow128_values();
    lemma_varint_round_trip_rec(s, pos, 0, n);
}


/// The per-service part of the aggregate, as decoded: the instance's id
/// and its state hashes, each an uninterpreted byte string.
pub struct ServiceStateHashes {
    pub instance_id: u32,
    pub state_hashes: Vec<Vec<u8>>,
}

/// The mathematical content of the per-service part.
#[verifier::ext_equal]
pub struct ServiceStateHashesView {
    pub instance_id: u32,
    pub state_hashes: Seq<Seq<u8>>,
}

impl View for ServiceStateHashes {
    type V = ServiceStateHashesView;

    open spec fn view(&self) -> ServiceStateHashesView {
        ServiceStateHashesView {
            instance_id: self.instance_id,
            state_hashes: self.state_hashes.deep_view(),
        }
    }
}

/// The whole aggregate the foreign side hands back for state hashing:
/// the runtime's own state hashes and one entry per service instance.
pub struct ServiceRuntimeStateHashes {
    pub runtime_state_hashes: Vec<Vec<u8>>,
    pub service_state_hashes: Vec<ServiceStateHashes>,
}

/// The mathematical content of the whole aggregate.
#[verifier::ext_equal]
pub struct ServiceRuntimeStateHashesView {
    pub runtime_state_hashes: Seq<Seq<u8>>,
    pub service_state_hashes: Seq<ServiceStateHashesView>,
}

impl View for ServiceRuntimeStateHashes {
    type V = ServiceRuntimeStateHashesView;

    open spec fn view(&self) -> ServiceRuntimeStateHashesView {
        ServiceRuntimeStateHashesView {
            runtime_state_hashes: self.runtime_state_hashes.deep_view(),
            service_state_hashes: Seq::new(
                self.service_state_hashes@.len(),
                |i: int| self.service_state_hashes@[i]@,
            ),
        }
    }
}

/// The empty per-service record every decoding starts from: id zero and
/// no hashes, the defaults of the wire format.
pub open spec fn empty_service() -> ServiceStateHashesView {
    ServiceStateHashesView { instance_id: 0, state_hashes: Seq::empty() }
}

/// The empty aggregate every decoding starts from.
pub open spec fn empty_runtime() -> ServiceRuntimeStateHashesView {
    ServiceRuntimeStateHashesView {
        runtime_state_hashes: Seq::empty(),
        service_state_hashes: Seq::empty(),
    }
}

/// Reads one length-prefixed byte string at `pos`.
pub open spec fn spec_parse_len_bytes(s: Seq<u8>, pos: int) -> Option<(Seq<u8>, int)> {
    match spec_parse_varint(s, pos) {
        Some((l, p)) => if p + l <= s.len() {
            Some((s.subrange(p, p + l), p + l))
        } else {
            None
        },
        None => None,
    }
}

/// Skips one field of the given wire type at `pos`: a variable-width
/// integer, an eight-byte value, a length-prefixed value or a four-byte
/// value. Anything else, the long-retired group markers included, is a
/// decoding error.
pub open spec fn spec_skip_field(s: Seq<u8>, pos: int, wire: nat) -> Option<int> {
    if wire == 0 {
        match spec_parse_varint(s, pos) {
            Some((_, p)) => Some(p),
            None => None,
        }
    } else if wire == 1 {
        if pos + 8 <= s.len() {
            Some(pos + 8)
        } else {
            None
        }
    } else if wire == 2 {
        match spec_parse_len_bytes(s, pos) {
            Some((_, p)) => Some(p),
            None => None,
        }
    } else if wire == 5 {
        if pos + 4 <= s.len() {
            Some(pos + 4)
        } else {
            None
        }
    } else {
        None
    }
}

/// Reads the fields of a per-service record from `pos` to the end of
/// the buffer, on top of what was accumulated so far: field one is the
/// instance id, field two one more state hash; unknown fields are
/// skipped by their wire type.
pub open spec fn spec_parse_service_fields(s: Seq<u8>, pos: int, acc: ServiceStateHashesView) -> Option<ServiceStateHashesView>
    decreases s.len() - pos,
{
    if pos < 0 || pos > s.len() {
        None
    } else if pos == s.len() {
        Some(acc)
    } else {
        match spec_parse_varint(s, pos) {
            None => None,
            Some((tag, p1)) => {
                let field = tag / 8;
                let wire = tag % 8;
                if field == 1 && wire == 0 {
                    match spec_parse_varint(s, p1) {
                        None => None,
                        Some((v, p2)) => if pos < p2 <= s.len() {
                            spec_parse_service_fields(
                                s,
                                p2,
                                ServiceStateHashesView {
                                    instance_id: (v % 0x100000000) as u32,
                                    state_hashes: acc.state_hashes,
                                },
                            )
                        } else {
                            None
                        },
                    }
                } else if field == 2 && wire == 2 {
                    match spec_parse_len_bytes(s, p1) {
                        None => None,
                        Some((bytes, p2)) => if pos < p2 <= s.len() {
                            spec_parse_service_fields(
                                s,
                                p2,
                                ServiceStateHashesView {
                                    instance_id: acc.instance_id,
                                    state_hashes: acc.state_hashes.push(bytes),
                                },
                            )
                        } else {
                            None
                        },
                    }
                } else {
                    match spec_skip_field(s, p1, wire) {
                        None => None,
                        Some(p2) => if pos < p2 <= s.len() {
                            spec_parse_service_fields(s, p2, acc)
                        } else {
                            None
                        },
                    }
                }
            },
        }
    }
}

/// Reads the fields of the aggregate from `pos` to the end of the
/// buffer: field one is one more runtime state hash, field two one more
/// per-service record, itself decoded from its length-prefixed bytes;
/// unknown fields are skipped by their wire type.
pub open spec fn spec_parse_runtime_fields(s: Seq<u8>, pos: int, acc: ServiceRuntimeStateHashesView) -> Option<ServiceRuntimeStateHashesView>
    decreases s.len() - pos,
{
    if pos < 0 || pos > s.len() {
        None
    } else if pos == s.len() {
        Some(acc)
    } else {
        match spec_parse_varint(s, pos) {
            None => None,
            Some((tag, p1)) => {
                let field = tag / 8;
                let wire = tag % 8;
                if field == 1 && wire == 2 {
                    match spec_parse_len_bytes(s, p1) {
                        None => None,
                        Some((bytes, p2)) => if pos < p2 <= s.len() {
                            spec_parse_runtime_fields(
                                s,
                                p2,
                                ServiceRuntimeStateHashesView {
                                    runtime_state_hashes: acc.runtime_state_hashes.push(bytes),
                                    service_state_hashes: acc.service_state_hashes,
                                },
                            )
                        } else {
                            None
                        },
                    }
                } else if field == 2 && wire == 2 {
                    match spec_parse_len_bytes(s, p1) {
                        None => None,
                        Some((bytes, p2)) => if pos < p2 <= s.len() {
                            match spec_parse_service_fields(bytes, 0, empty_service()) {
                                None => None,
                                Some(svc) => spec_parse_runtime_fields(
                                    s,
                                    p2,
                                    ServiceRuntimeStateHashesView {
                                        runtime_state_hashes: acc.runtime_state_hashes,
                                        service_state_hashes: acc.service_state_hashes.push(svc),
                                    },
                                ),
                            }
                        } else {
                            None
                        },
                    }
                } else {
                    match spec_skip_field(s, p1, wire) {
                        None => None,
                        Some(p2) => if pos < p2 <= s.len() {
                            spec_parse_runtime_fields(s, p2, acc)
                        } else {
                            None
                        },
                    }
                }
            },
        }
    }
}

/// What a state hash buffer decodes to, when it decodes at all.
pub open spec fn spec_decode_state_hashes(s: Seq<u8>) -> Option<ServiceRuntimeStateHashesView> {
    spec_parse_runtime_fields(s, 0, empty_runtime())
}


/// The error of a buffer that is not a well-formed state hash
/// aggregate: a protocol mismatch between the two sides.
#[derive(Debug, Clone, Copy, PartialEq, Eq, Structural)]
pub struct DecodeError;

fn copy_range(s: &Vec<u8>, start: usize, end: usize) -> (r: Vec<u8>)
    requires
        start <= end <= s@.len(),
    ensures
        r@ == s@.subrange(start as int, end as int),
{
    let mut r: Vec<u8> = Vec::new();
    let mut i = start;
    while i < end
        invariant
            start <= i <= end <= s@.len(),
            r@ == s@.subrange(start as int, i as int),
        decreases end - i,
    {
        r.push(s[i]);
        proof {
            assert(r@ =~= s@.subrange(start as int, i + 1));
        }
        i = i + 1;
    }
    r
}

/// Reads one length-prefixed byte string, as the decoder runs it.
fn parse_len_bytes(s: &Vec<u8>, pos: usize) -> (r: Option<(Vec<u8>, usize)>)
    ensures
        match spec_parse_len_bytes(s@, pos as int) {
            Some(v) => r matches Some(rr) && rr.0@ == v.0 && rr.1 == v.1,
            None => r is None,
        },
{
    match parse_varint(s, pos) {
        None => None,
        Some((l, p)) => {
            proof {
                lemma_varint_bounds(s@, pos as int, 0);
            }
            if l <= (s.len() - p) as u64 {
                let end = p + (l as usize);
                Some((copy_range(s, p, end), end))
            } else {
                None
            }
        },
    }
}

/// Skips one field of the given wire type, as the decoder runs it.
fn skip_field(s: &Vec<u8>, pos: usize, wire: u64) -> (r: Option<usize>)
    ensures
        match spec_skip_field(s@, pos as int, wire as nat) {
            Some(p) => r matches Some(rp) && rp == p,
            None => r is None,
        },
{
    if wire == 0 {
        match parse_varint(s, pos) {
            Some((_, p)) => Some(p),
            None => None,
        }
    } else if wire == 1 {
        if s.len() >= 8 && pos <= s.len() - 8 {
            Some(pos + 8)
        } else {
            None
        }
    } else if wire == 2 {
        match parse_len_bytes(s, pos) {
            Some((_, p)) => Some(p),
            None => None,
        }
    } else if wire == 5 {
        if s.len() >= 4 && pos <= s.len() - 4 {
            Some(pos + 4)
        } else {
            None
        }
    } else {
        None
    }
}

/// Decodes one per-service record out of its length-prefixed bytes.
fn decode_service(chunk: &Vec<u8>) -> (r: Option<ServiceStateHashes>)
    ensures
        match spec_parse_service_fields(chunk@, 0, empty_service()) {
            Some(v) => r matches Some(m) && m@ == v,
            None => r is None,
        },
{
    let mut instance_id: u32 = 0;
    let mut state_hashes: Vec<Vec<u8>> = Vec::new();
    let mut pos: usize = 0;
    let n = chunk.len();
    proof {
        assert((ServiceStateHashesView {
            instance_id: instance_id,
            state_hashes: state_hashes.deep_view(),
        }) =~~= empty_service());
    }
    while pos < n
        invariant
            pos <= n,
            n == chunk@.len(),
            spec_parse_service_fields(
                chunk@,
                pos as int,
                ServiceStateHashesView {
                    instance_id: instance_id,
                    state_hashes: state_hashes.deep_view(),
                },
            ) == spec_parse_service_fields(chunk@, 0, empty_service()),
        decreases n - pos,
    {
        let ghost pos0 = pos as int;
        let ghost acc0 = ServiceStateHashesView {
            instance_id: instance_id,
            state_hashes: state_hashes.deep_view(),
        };
        let (tag, p1) = match parse_varint(chunk, pos) {
            Some(t) => t,
            None => {
                return None;
            },
        };
        proof {
            lemma_varint_bounds(chunk@, pos0, 0);
        }
        let field = tag / 8;
        let wire = tag % 8;
        if field == 1 && wire == 0 {
            let (v, p2) = match parse_varint(chunk, p1) {
                Some(t) => t,
                None => {
                    return None;
                },
            };
            proof {
                lemma_varint_bounds(chunk@, p1 as int, 0);
            }
            instance_id = (v % 0x100000000) as u64 as u32;
            pos = p2;
            proof {
                let acc1 = ServiceStateHashesView {
                    instance_id: instance_id,
                    state_hashes: state_hashes.deep_view(),
                };
                assert(spec_parse_service_fields(chunk@, pos0, acc0)
                    == spec_parse_service_fields(chunk@, pos as int, acc1));
            }
        } else if field == 2 && wire == 2 {
            let (bytes, p2) = match parse_len_bytes(chunk, p1) {
                Some(t) => t,
                None => {
                    return None;
                },
            };
            let ghost bytes_view = bytes@;
            proof {
                lemma_varint_bounds(chunk@, p1 as int, 0);
            }
            state_hashes.push(bytes);
            pos = p2;
            proof {
                let acc1 = ServiceStateHashesView {
                    instance_id: instance_id,
                    state_hashes: state_hashes.deep_view(),
                };
                assert(state_hashes.deep_view() =~~= acc0.state_hashes.push(bytes_view));
                assert(acc1 =~~= (ServiceStateHashesView {
                    instance_id: acc0.instance_id,
                    state_hashes: acc0.state_hashes.push(bytes_view),
                }));
                assert(spec_parse_service_fields(chunk@, pos0, acc0)
                    == spec_parse_service_fields(chunk@, pos as int, acc1));
            }
        } else {
            let p2 = match skip_field(chunk, p1, wire) {
                Some(p) => p,
                None => {
                    return None;
                },
            };
            proof {
                lemma_varint_bounds(chunk@, p1 as int, 0);
            }
            pos = p2;
            proof {
                assert(spec_parse_service_fields(chunk@, pos0, acc0)
                    == spec_parse_service_fields(chunk@, pos as int, acc0));
            }
        }
    }
    Some(ServiceStateHashes { instance_id, state_hashes })
}

/// Decodes a state hash buffer into the aggregate it carries, or
/// reports the protocol mismatch of a malformed buffer.
pub fn decode_state_hashes(bytes: &Vec<u8>) -> (r: Result<ServiceRuntimeStateHashes, DecodeError>)
    ensures
        match spec_decode_state_hashes(bytes@) {
            Some(v) => r matches Ok(m) && m@ == v,
            None => r is Err,
        },
{
    let mut runtime_state_hashes: Vec<Vec<u8>> = Vec::new();
    let mut service_state_hashes: Vec<ServiceStateHashes> = Vec::new();
    let mut pos: usize = 0;
    let n = bytes.len();
    proof {
        assert((ServiceRuntimeStateHashesView {
            runtime_state_hashes: runtime_state_hashes.deep_view(),
            service_state_hashes: Seq::new(
                service_state_hashes@.len(),
                |i: int| service_state_hashes@[i]@,
            ),
        }) =~~= empty_runtime());
    }
    while pos < n
        invariant
            pos <= n,
            n == bytes@.len(),
            spec_parse_runtime_fields(
                bytes@,
                pos as int,
                ServiceRuntimeStateHashesView {
                    runtime_state_hashes: runtime_state_hashes.deep_view(),
                    service_state_hashes: Seq::new(
                        service_state_hashes@.len(),
                        |i: int| service_state_hashes@[i]@,
                    ),
                },
            ) == spec_parse_runtime_fields(bytes@, 0, empty_runtime()),
        decreases n - pos,
    {
        let ghost pos0 = pos as int;
        let ghost acc0 = ServiceRuntimeStateHashesView {
            runtime_state_hashes: runtime_state_hashes.deep_view(),
            service_state_hashes: Seq::new(
                service_state_hashes@.len(),
                |i: int| service_state_hashes@[i]@,
            ),
        };
        let (tag, p1) = match parse_varint(bytes, pos) {
            Some(t) => t,
            None => {
                return Err(DecodeError);
            },
        };
        proof {
            lemma_varint_bounds(bytes@, pos0, 0);
        }
        let field = tag / 8;
        let wire = tag % 8;
        if field == 1 && wire == 2 {
            let (hash, p2) = match parse_len_bytes(bytes, p1) {
                Some(t) => t,
                None => {
                    return Err(DecodeError);
                },
            };
            let ghost hash_view = hash@;
            proof {
                lemma_varint_bounds(bytes@, p1 as int, 0);
            }
            runtime_state_hashes.push(hash);
            pos = p2;
            proof {
                let acc1 = ServiceRuntimeStateHashesView {
                    runtime_state_hashes: runtime_state_hashes.deep_view(),
                    service_state_hashes: Seq::new(
                        service_state_hashes@.len(),
                        |i: int| service_state_hashes@[i]@,
                    ),
                };
                assert(runtime_state_hashes.deep_view() =~~= acc0.runtime_state_hashes.push(
                    hash_view,
                ));
                assert(acc1 =~~= (ServiceRuntimeStateHashesView {
                    runtime_state_hashes: acc0.runtime_state_hashes.push(hash_view),
                    service_state_hashes: acc0.service_state_hashes,
                }));
                assert(spec_parse_runtime_fields(bytes@, pos0, acc0)
                    == spec_parse_runtime_fields(bytes@, pos as int, acc1));
            }
        } else if field == 2 && wire == 2 {
            let (chunk, p2) = match parse_len_bytes(bytes, p1) {
                Some(t) => t,
                None => {
                    return Err(DecodeError);
                },
            };
            let svc = match decode_service(&chunk) {
                Some(m) => m,
                None => {
                    return Err(DecodeError);
                },
            };
            let ghost svc_view = svc@;
            proof {
                lemma_varint_bounds(bytes@, p1 as int, 0);
            }
            service_state_hashes.push(svc);
            pos = p2;
            proof {
                let acc1 = ServiceRuntimeStateHashesView {
                    runtime_state_hashes: runtime_state_hashes.deep_view(),
                    service_state_hashes: Seq::new(
                        service_state_hashes@.len(),
                        |i: int| service_state_hashes@[i]@,
                    ),
                };
                assert(Seq::new(service_state_hashes@.len(), |i: int| service_state_hashes@[i]@)
                    =~~= acc0.service_state_hashes.push(svc_view));
                assert(acc1 =~~= (ServiceRuntimeStateHashesView {
                    runtime_state_hashes: acc0.runtime_state_hashes,
                    service_state_hashes: acc0.service_state_hashes.push(svc_view),
                }));
                assert(spec_parse_runtime_fields(bytes@, pos0, acc0)
                    == spec_parse_runtime_fields(bytes@, pos as int, acc1));
            }
        } else {
            let p2 = match skip_field(bytes, p1, wire) {
                Some(p) => p,
                None => {
                    return Err(DecodeError);
                },
            };
            proof {
                lemma_varint_bounds(bytes@, p1 as int, 0);
            }
            pos = p2;
            proof {
                assert(spec_parse_runtime_fields(bytes@, pos0, acc0)
                    == spec_parse_runtime_fields(bytes@, pos as int, acc0));
            }
        }
    }
    Ok(ServiceRuntimeStateHashes { runtime_state_hashes, service_state_hashes })
}


/// The encoding of one length-prefixed field: its tag byte, the length
/// of its bytes, and the bytes themselves.
pub open spec fn spec_encode_bytes_field(tag: u8, b: Seq<u8>) -> Seq<u8> {
    seq![tag] + spec_encode_varint(b.len()) + b
}

/// The encoding of a repeated length-prefixed field, element by
/// element, in order.
pub open spec fn spec_encode_bytes_fields(tag: u8, items: Seq<Seq<u8>>) -> Seq<u8>
    decreases items.len(),
{
    if items.len() == 0 {
        Seq::empty()
    } else {
        spec_encode_bytes_field(tag, items[0]) + spec_encode_bytes_fields(tag, items.drop_first())
    }
}

/// The encoding of one per-service record: its instance id, then its
/// state hashes.
pub open spec fn spec_encode_service(m: ServiceStateHashesView) -> Seq<u8> {
    seq![0x08u8] + spec_encode_varint(m.instance_id as nat) + spec_encode_bytes_fields(
        0x12,
        m.state_hashes,
    )
}

/// The encoding of the repeated per-service records, each one a
/// length-prefixed message.
pub open spec fn spec_encode_service_entries(svcs: Seq<ServiceStateHashesView>) -> Seq<u8>
    decreases svcs.len(),
{
    if svcs.len() == 0 {
        Seq::empty()
    } else {
        spec_encode_bytes_field(0x12, spec_encode_service(svcs[0])) + spec_encode_service_entries(
            svcs.drop_first(),
        )
    }
}

/// The encoding of the whole aggregate: the runtime state hashes, then
/// the per-service records.
pub open spec fn spec_encode_runtime(m: ServiceRuntimeStateHashesView) -> Seq<u8> {
    spec_encode_bytes_fields(0x0a, m.runtime_state_hashes) + spec_encode_service_entries(
        m.service_state_hashes,
    )
}

fn encode_bytes_field(tag: u8, b: &Vec<u8>, out: &mut Vec<u8>)
    ensures
        final(out)@ == old(out)@ + spec_encode_bytes_field(tag, b@),
{
    out.push(tag);
    encode_varint(b.len() as u64, out);
    out.extend_from_slice(b.as_slice());
    proof {
        assert(out@ =~= old(out)@ + spec_encode_bytes_field(tag, b@));
    }
}

/// Encodes one per-service record, as its own message.
pub fn encode_service(m: &ServiceStateHashes) -> (r: Vec<u8>)
    ensures
        r@ == spec_encode_service(m@),
{
    let mut out: Vec<u8> = Vec::new();
    out.push(0x08);
    encode_varint(m.instance_id as u64, &mut out);
    let ghost target = spec_encode_service(m@);
    proof {
        assert(out@ + spec_encode_bytes_fields(0x12, m@.state_hashes) =~= target);
        assert(m@.state_hashes.skip(0) =~= m@.state_hashes);
    }
    let n = m.state_hashes.len();
    let mut i: usize = 0;
    while i < n
        invariant
            i <= n,
            n == m.state_hashes@.len(),
            out@ + spec_encode_bytes_fields(0x12, m@.state_hashes.skip(i as int)) == target,
        decreases n - i,
    {
        let ghost before = out@;
        let ghost rest = m@.state_hashes.skip(i as int);
        encode_bytes_field(0x12, &m.state_hashes[i], &mut out);
        proof {
            assert(rest[0] == m@.state_hashes[i as int]);
            assert(rest.drop_first() =~= m@.state_hashes.skip(i + 1));
            assert(out@ + spec_encode_bytes_fields(0x12, m@.state_hashes.skip(i + 1)) =~= target);
        }
        i = i + 1;
    }
    proof {
        assert(m@.state_hashes.skip(n as int) =~= Seq::<Seq<u8>>::empty());
        assert(out@ =~= target);
    }
    out
}

/// Encodes the whole aggregate into the buffer form the foreign side
/// produces for it.
pub fn encode_state_hashes(m: &ServiceRuntimeStateHashes) -> (r: Vec<u8>)
    ensures
        r@ == spec_encode_runtime(m@),
{
    let mut out: Vec<u8> = Vec::new();
    let ghost target1 = spec_encode_bytes_fields(0x0a, m@.runtime_state_hashes);
    let n = m.runtime_state_hashes.len();
    let mut i: usize = 0;
    proof {
        assert(m@.runtime_state_hashes.skip(0) =~= m@.runtime_state_hashes);
    }
    while i < n
        invariant
            i <= n,
            n == m.runtime_state_hashes@.len(),
            out@ + spec_encode_bytes_fields(0x0a, m@.runtime_state_hashes.skip(i as int))
                == target1,
        decreases n - i,
    {
        let ghost rest = m@.runtime_state_hashes.skip(i as int);
        encode_bytes_field(0x0a, &m.runtime_state_hashes[i], &mut out);
        proof {
            assert(rest[0] == m@.runtime_state_hashes[i as int]);
            assert(rest.drop_first() =~= m@.runtime_state_hashes.skip(i + 1));
            assert(out@ + spec_encode_bytes_fields(0x0a, m@.runtime_state_hashes.skip(i + 1))
                =~= target1);
        }
        i = i + 1;
    }
    proof {
        assert(m@.runtime_state_hashes.skip(n as int) =~= Seq::<Seq<u8>>::empty());
        assert(out@ =~= target1);
    }
    let ghost target = spec_encode_runtime(m@);
    proof {
        assert(out@ + spec_encode_service_entries(m@.service_state_hashes) =~= target);
        assert(m@.service_state_hashes.skip(0) =~= m@.service_state_hashes);
    }
    let k = m.service_state_hashes.len();
    let mut j: usize = 0;
    while j < k
        invariant
            j <= k,
            k == m.service_state_hashes@.len(),
            forall|l: int| 0 <= l < k ==> m@.service_state_hashes[l]
                == m.service_state_hashes@[l]@,
            out@ + spec_encode_service_entries(m@.service_state_hashes.skip(j as int)) == target,
        decreases k - j,
    {
        let ghost rest = m@.service_state_hashes.skip(j as int);
        let encoded = encode_service(&m.service_state_hashes[j]);
        encode_bytes_field(0x12, &encoded, &mut out);
        proof {
            assert(rest[0] == m@.service_state_hashes[j as int]);
            assert(rest.drop_first() =~= m@.service_state_hashes.skip(j + 1));
            assert(out@ + spec_encode_service_entries(m@.service_state_hashes.skip(j + 1))
                =~= target);
        }
        j = j + 1;
    }
    proof {
        assert(m@.service_state_hashes.skip(k as int) =~= Seq::<ServiceStateHashesView>::empty());
        assert(out@ =~= target);
    }
    out
}


proof fn lemma_sub(s: Seq<u8>, pos: int, e: Seq<u8>, a: int, b: int)
    requires
        0 <= pos,
        pos + e.len() <= s.len(),
        s.subrange(pos, pos + e.len() as int) == e,
        0 <= a <= b <= e.len(),
    ensures
        s.subrange(pos + a, pos + b) == e.subrange(a, b),
{
    assert forall|i: int| 0 <= i < b - a implies s.subrange(pos + a, pos + b)[i] == e.subrange(
        a,
        b,
    )[i] by {
        assert(s.subrange(pos, pos + e.len() as int)[a + i] == e[a + i]);
    }
    assert(s.subrange(pos + a, pos + b) =~= e.subrange(a, b));
}

/// Whether every byte string of a list is short enough for its length
/// to be carried on the wire.
pub open spec fn wf_bytes_list(items: Seq<Seq<u8>>) -> bool {
    forall|i: int| 0 <= i < items.len() ==> (#[trigger] items[i]).len() < 0x10000000000000000
}

/// Whether a per-service record can be carried on the wire.
pub open spec fn wf_service(m: ServiceStateHashesView) -> bool {
    wf_bytes_list(m.state_hashes)
}

/// Whether an aggregate can be carried on the wire: every byte string,
/// and every encoded per-service record, is short enough for its length
/// to be carried.
pub open spec fn wf_runtime(m: ServiceRuntimeStateHashesView) -> bool {
    &&& wf_bytes_list(m.runtime_state_hashes)
    &&& forall|i: int| 0 <= i < m.service_state_hashes.len() ==> wf_service(
        #[trigger] m.service_state_hashes[i],
    ) && spec_encode_service(m.service_state_hashes[i]).len() < 0x10000000000000000
}

proof fn lemma_service_bytes_fields_rt(s: Seq<u8>, pos: int, items: Seq<Seq<u8>>, acc: ServiceStateHashesView)
    requires
        0 <= pos,
        wf_bytes_list(items),
        pos + spec_encode_bytes_fields(0x12, items).len() <= s.len(),
        s.subrange(pos, pos + spec_encode_bytes_fields(0x12, items).len() as int)
            == spec_encode_bytes_fields(0x12, items),
    ensures
        spec_parse_service_fields(s, pos, acc) == spec_parse_service_fields(
            s,
            pos + spec_encode_bytes_fields(0x12, items).len(),
            ServiceStateHashesView {
                instance_id: acc.instance_id,
                state_hashes: acc.state_hashes + items,
            },
        ),
    decreases items.len(),
{
    let enc = spec_encode_bytes_fields(0x12, items);
    if items.len() == 0 {
        assert(acc.state_hashes + items =~= acc.state_hashes);
        assert((ServiceStateHashesView {
            instance_id: acc.instance_id,
            state_hashes: acc.state_hashes + items,
        }) =~~= acc);
    } else {
        let b0 = items[0];
        let f0 = spec_encode_bytes_field(0x12, b0);
        let lv = spec_encode_varint(b0.len());
        let rest_enc = spec_encode_bytes_fields(0x12, items.drop_first());
        assert(enc == f0 + rest_enc);
        assert(f0 == seq![0x12u8] + lv + b0);
        assert(f0.len() == 1 + lv.len() + b0.len());
        assert(s.subrange(pos, pos + enc.len() as int)[0] == enc[0]);
        assert(enc[0] == f0[0]);
        assert(f0[0] == 0x12);
        assert(s[pos] == 0x12);
        assert((0x12u8 & 0x7f) == 0x12 && 0x12u8 < 0x80) by (bit_vector);
        assert(spec_parse_varint(s, pos) == Some((18 as nat, pos + 1int)));
        lemma_sub(s, pos, enc, 1, 1 + lv.len() as int);
        assert(enc.subrange(1, 1 + lv.len() as int) =~= lv) by {
            assert forall|i: int| 0 <= i < lv.len() implies enc.subrange(
                1,
                1 + lv.len() as int,
            )[i] == lv[i] by {
                assert(enc[1 + i] == f0[1 + i]);
                assert(f0[1 + i] == lv[i]);
            }
        }
        lemma_varint_round_trip(s, pos + 1, b0.len());
        let p: int = pos + 1 + lv.len() as int;
        assert(spec_parse_varint(s, pos + 1) == Some((b0.len(), p)));
        lemma_sub(s, pos, enc, 1 + lv.len() as int, f0.len() as int);
        assert(enc.subrange(1 + lv.len() as int, f0.len() as int) =~= b0) by {
            assert forall|i: int| 0 <= i < b0.len() implies enc.subrange(
                1 + lv.len() as int,
                f0.len() as int,
            )[i] == b0[i] by {
                assert(enc[1 + lv.len() + i] == f0[1 + lv.len() + i]);
                assert(f0[1 + lv.len() + i] == b0[i]);
            }
        }
        let p2 = p + b0.len();
        assert(spec_parse_len_bytes(s, pos + 1) == Some((b0, p2)));
        let acc1 = ServiceStateHashesView {
            instance_id: acc.instance_id,
            state_hashes: acc.state_hashes.push(b0),
        };
        assert(spec_parse_service_fields(s, pos, acc) == spec_parse_service_fields(s, p2, acc1));
        lemma_sub(s, pos, enc, f0.len() as int, enc.len() as int);
        assert(enc.subrange(f0.len() as int, enc.len() as int) =~= rest_enc) by {
            assert forall|i: int| 0 <= i < rest_enc.len() implies enc.subrange(
                f0.len() as int,
                enc.len() as int,
            )[i] == rest_enc[i] by {
                assert(enc[f0.len() + i] == rest_enc[i]);
            }
        }
        assert(forall|i: int| 0 <= i < items.drop_first().len() ==> items.drop_first()[i]
            == items[i + 1]);
        lemma_service_bytes_fields_rt(s, p2, items.drop_first(), acc1);
        assert(acc1.state_hashes + items.drop_first() =~= acc.state_hashes + items);
        assert((ServiceStateHashesView {
            instance_id: acc1.instance_id,
            state_hashes: acc1.state_hashes + items.drop_first(),
        }) =~~= (ServiceStateHashesView {
            instance_id: acc.instance_id,
            state_hashes: acc.state_hashes + items,
        }));
        assert(p2 + rest_enc.len() == pos + enc.len());
    }
}

/// A per-service record reads back from its own encoding.
pub proof fn lemma_service_round_trip(m: ServiceStateHashesView)
    requires
        wf_service(m),
    ensures
        spec_parse_service_fields(spec_encode_service(m), 0, empty_service()) == Some(m),
{
    let s = spec_encode_service(m);
    let iv = spec_encode_varint(m.instance_id as nat);
    let fields = spec_encode_bytes_fields(0x12, m.state_hashes);
    assert(s == seq![0x08u8] + iv + fields);
    assert(s[0] == 0x08);
    assert((0x08u8 & 0x7f) == 0x08 && 0x08u8 < 0x80) by (bit_vector);
    assert(spec_parse_varint(s, 0) == Some((8 as nat, 1int)));
    assert(s.subrange(0, s.len() as int) =~= s);
    lemma_sub(s, 0, s, 1, 1 + iv.len() as int);
    assert(s.subrange(1, 1 + iv.len() as int) =~= iv) by {
        assert forall|i: int| 0 <= i < iv.len() implies s.subrange(1, 1 + iv.len() as int)[i]
            == iv[i] by {
            assert(s[1 + i] == iv[i]);
        }
    }
    lemma_varint_round_trip(s, 1, m.instance_id as nat);
    let p2: int = 1 + iv.len() as int;
    assert(spec_parse_varint(s, 1) == Some((m.instance_id as nat, p2)));
    assert(((m.instance_id as nat) % 0x100000000) as u32 == m.instance_id);
    let acc1 = ServiceStateHashesView {
        instance_id: m.instance_id,
        state_hashes: Seq::empty(),
    };
    assert(spec_parse_service_fields(s, 0, empty_service()) == spec_parse_service_fields(
        s,
        p2,
        acc1,
    ));
    assert(s.subrange(p2, p2 + fields.len() as int) =~= fields) by {
        assert forall|i: int| 0 <= i < fields.len() implies s.subrange(
            p2,
            p2 + fields.len() as int,
        )[i] == fields[i] by {
            assert(s[p2 + i] == fields[i]);
        }
    }
    lemma_service_bytes_fields_rt(s, p2, m.state_hashes, acc1);
    assert(acc1.state_hashes + m.state_hashes =~= m.state_hashes);
    assert((ServiceStateHashesView {
        instance_id: acc1.instance_id,
        state_hashes: acc1.state_hashes + m.state_hashes,
    }) =~~= m);
    assert(p2 + fields.len() == s.len());
}

proof fn lemma_runtime_bytes_fields_rt(s: Seq<u8>, pos: int, items: Seq<Seq<u8>>, acc: ServiceRuntimeStateHashesView)
    requires
        0 <= pos,
        wf_bytes_list(items),
        pos + spec_encode_bytes_fields(0x0a, items).len() <= s.len(),
        s.subrange(pos, pos + spec_encode_bytes_fields(0x0a, items).len() as int)
            == spec_encode_bytes_fields(0x0a, items),
    ensures
        spec_parse_runtime_fields(s, pos, acc) == spec_parse_runtime_fields(
            s,
            pos + spec_encode_bytes_fields(0x0a, items).len(),
            ServiceRuntimeStateHashesView {
                runtime_state_hashes: acc.runtime_state_hashes + items,
                service_state_hashes: acc.service_state_hashes,
            },
        ),
    decreases items.len(),
{
    let enc = spec_encode_bytes_fields(0x0a, items);
    if items.len() == 0 {
        assert(acc.runtime_state_hashes + items =~= acc.runtime_state_hashes);
        assert((ServiceRuntimeStateHashesView {
            runtime_state_hashes: acc.runtime_state_hashes + items,
            service_state_hashes: acc.service_state_hashes,
        }) =~~= acc);
    } else {
        let b0 = items[0];
        let f0 = spec_encode_bytes_field(0x0a, b0);
        let lv = spec_encode_varint(b0.len());
        let rest_enc = spec_encode_bytes_fields(0x0a, items.drop_first());
        assert(enc == f0 + rest_enc);
        assert(f0 == seq![0x0au8] + lv + b0);
        assert(f0.len() == 1 + lv.len() + b0.len());
        assert(s.subrange(pos, pos + enc.len() as int)[0] == enc[0]);
        assert(enc[0] == f0[0]);
        assert(f0[0] == 0x0a);
        assert(s[pos] == 0x0a);
        assert((0x0au8 & 0x7f) == 0x0a && 0x0au8 < 0x80) by (bit_vector);
        assert(spec_parse_varint(s, pos) == Some((10 as nat, pos + 1int)));
        lemma_sub(s, pos, enc, 1, 1 + lv.len() as int);
        assert(enc.subrange(1, 1 + lv.len() as int) =~= lv) by {
            assert forall|i: int| 0 <= i < lv.len() implies enc.subrange(
                1,
                1 + lv.len() as int,
            )[i] == lv[i] by {
                assert(enc[1 + i] == f0[1 + i]);
                assert(f0[1 + i] == lv[i]);
            }
        }
        lemma_varint_round_trip(s, pos + 1, b0.len());
        let p: int = pos + 1 + lv.len() as int;
        lemma_sub(s, pos, enc, 1 + lv.len() as int, f0.len() as int);
        assert(enc.subrange(1 + lv.len() as int, f0.len() as int) =~= b0) by {
            assert forall|i: int| 0 <= i < b0.len() implies enc.subrange(
                1 + lv.len() as int,
                f0.len() as int,
            )[i] == b0[i] by {
                assert(enc[1 + lv.len() + i] == f0[1 + lv.len() + i]);
                assert(f0[1 + lv.len() + i] == b0[i]);
            }
        }
        let p2 = p + b0.len();
        assert(spec_parse_len_bytes(s, pos + 1) == Some((b0, p2)));
        let acc1 = ServiceRuntimeStateHashesView {
            runtime_state_hashes: acc.runtime_state_hashes.push(b0),
            service_state_hashes: acc.service_state_hashes,
        };
        assert(spec_parse_runtime_fields(s, pos, acc) == spec_parse_runtime_fields(s, p2, acc1));
        lemma_sub(s, pos, enc, f0.len() as int, enc.len() as int);
        assert(enc.subrange(f0.len() as int, enc.len() as int) =~= rest_enc) by {
            assert forall|i: int| 0 <= i < rest_enc.len() implies enc.subrange(
                f0.len() as int,
                enc.len() as int,
            )[i] == rest_enc[i] by {
                assert(enc[f0.len() + i] == rest_enc[i]);
            }
        }
        assert(forall|i: int| 0 <= i < items.drop_first().len() ==> items.drop_first()[i]
            == items[i + 1]);
        lemma_runtime_bytes_fields_rt(s, p2, items.drop_first(), acc1);
        assert(acc1.runtime_state_hashes + items.drop_first() =~= acc.runtime_state_hashes
            + items);
        assert((ServiceRuntimeStateHashesView {
            runtime_state_hashes: acc1.runtime_state_hashes + items.drop_first(),
            service_state_hashes: acc1.service_state_hashes,
        }) =~~= (ServiceRuntimeStateHashesView {
            runtime_state_hashes: acc.runtime_state_hashes + items,
            service_state_hashes: acc.service_state_hashes,
        }));
        assert(p2 + rest_enc.len() == pos + enc.len());
    }
}

proof fn lemma_runtime_service_entries_rt(s: Seq<u8>, pos: int, svcs: Seq<ServiceStateHashesView>, acc: ServiceRuntimeStateHashesView)
    requires
        0 <= pos,
        forall|i: int| 0 <= i < svcs.len() ==> wf_service(#[trigger] svcs[i])
            && spec_encode_service(svcs[i]).len() < 0x10000000000000000,
        pos + spec_encode_service_entries(svcs).len() <= s.len(),
        s.subrange(pos, pos + spec_encode_service_entries(svcs).len() as int)
            == spec_encode_service_entries(svcs),
    ensures
        spec_parse_runtime_fields(s, pos, acc) == spec_parse_runtime_fields(
            s,
            pos + spec_encode_service_entries(svcs).len(),
            ServiceRuntimeStateHashesView {
                runtime_state_hashes: acc.runtime_state_hashes,
                service_state_hashes: acc.service_state_hashes + svcs,
            },
        ),
    decreases svcs.len(),
{
    let enc = spec_encode_service_entries(svcs);
    if svcs.len() == 0 {
        assert(acc.service_state_hashes + svcs =~= acc.service_state_hashes);
        assert((ServiceRuntimeStateHashesView {
            runtime_state_hashes: acc.runtime_state_hashes,
            service_state_hashes: acc.service_state_hashes + svcs,
        }) =~~= acc);
    } else {
        let b0 = spec_encode_service(svcs[0]);
        let f0 = spec_encode_bytes_field(0x12, b0);
        let lv = spec_encode_varint(b0.len());
        let rest_enc = spec_encode_service_entries(svcs.drop_first());
        assert(enc == f0 + rest_enc);
        assert(f0 == seq![0x12u8] + lv + b0);
        assert(f0.len() == 1 + lv.len() + b0.len());
        assert(s.subrange(pos, pos + enc.len() as int)[0] == enc[0]);
        assert(enc[0] == f0[0]);
        assert(f0[0] == 0x12);
        assert(s[pos] == 0x12);
        assert((0x12u8 & 0x7f) == 0x12 && 0x12u8 < 0x80) by (bit_vector);
        assert(spec_parse_varint(s, pos) == Some((18 as nat, pos + 1int)));
        lemma_sub(s, pos, enc, 1, 1 + lv.len() as int);
        assert(enc.subrange(1, 1 + lv.len() as int) =~= lv) by {
            assert forall|i: int| 0 <= i < lv.len() implies enc.subrange(
                1,
                1 + lv.len() as int,
            )[i] == lv[i] by {
                assert(enc[1 + i] == f0[1 + i]);
                assert(f0[1 + i] == lv[i]);
            }
        }
        lemma_varint_round_trip(s, pos + 1, b0.len());
        let p: int = pos + 1 + lv.len() as int;
        lemma_sub(s, pos, enc, 1 + lv.len() as int, f0.len() as int);
        assert(enc.subrange(1 + lv.len() as int, f0.len() as int) =~= b0) by {
            assert forall|i: int| 0 <= i < b0.len() implies enc.subrange(
                1 + lv.len() as int,
                f0.len() as int,
            )[i] == b0[i] by {
                assert(enc[1 + lv.len() + i] == f0[1 + lv.len() + i]);
                assert(f0[1 + lv.len() + i] == b0[i]);
            }
        }
        let p2 = p + b0.len();
        assert(spec_parse_len_bytes(s, pos + 1) == Some((b0, p2)));
        lemma_service_round_trip(svcs[0]);
        assert(spec_parse_service_fields(b0, 0, empty_service()) == Some(svcs[0]));
        let acc1 = ServiceRuntimeStateHashesView {
            runtime_state_hashes: acc.runtime_state_hashes,
            service_state_hashes: acc.service_state_hashes.push(svcs[0]),
        };
        assert(spec_parse_runtime_fields(s, pos, acc) == spec_parse_runtime_fields(s, p2, acc1));
        lemma_sub(s, pos, enc, f0.len() as int, enc.len() as int);
        assert(enc.subrange(f0.len() as int, enc.len() as int) =~= rest_enc) by {
            assert forall|i: int| 0 <= i < rest_enc.len() implies enc.subrange(
                f0.len() as int,
                enc.len() as int,
            )[i] == rest_enc[i] by {
                assert(enc[f0.len() + i] == rest_enc[i]);
            }
        }
        assert(forall|i: int| 0 <= i < svcs.drop_first().len() ==> svcs.drop_first()[i]
            == svcs[i + 1]);
        lemma_runtime_service_entries_rt(s, p2, svcs.drop_first(), acc1);
        assert(acc1.service_state_hashes + svcs.drop_first() =~= acc.service_state_hashes + svcs);
        assert((ServiceRuntimeStateHashesView {
            runtime_state_hashes: acc1.runtime_state_hashes,
            service_state_hashes: acc1.service_state_hashes + svcs.drop_first(),
        }) =~~= (ServiceRuntimeStateHashesView {
            runtime_state_hashes: acc.runtime_state_hashes,
            service_state_hashes: acc.service_state_hashes + svcs,
        }));
        assert(p2 + rest_enc.len() == pos + enc.len());
    }
}

/// The round trip of the codec: an aggregate that can be carried on the
/// wire decodes, from its own encoding, back to itself — the same
/// runtime hashes, the same instances with the same ids, and each
/// instance's hashes, unchanged and in their original order.
pub proof fn lemma_state_hashes_round_trip(m: ServiceRuntimeStateHashesView)
    requires
        wf_runtime(m),
    ensures
        spec_decode_state_hashes(spec_encode_runtime(m)) == Some(m),
{
    let s = spec_encode_runtime(m);
    let enc1 = spec_encode_bytes_fields(0x0a, m.runtime_state_hashes);
    let enc2 = spec_encode_service_entries(m.service_state_hashes);
    assert(s == enc1 + enc2);
    assert(s.subrange(0, enc1.len() as int) =~= enc1) by {
        assert forall|i: int| 0 <= i < enc1.len() implies s.subrange(0, enc1.len() as int)[i]
            == enc1[i] by {
            assert(s[i] == enc1[i]);
        }
    }
    lemma_runtime_bytes_fields_rt(s, 0, m.runtime_state_hashes, empty_runtime());
    let acc1 = ServiceRuntimeStateHashesView {
        runtime_state_hashes: Seq::empty() + m.runtime_state_hashes,
        service_state_hashes: Seq::empty(),
    };
    assert(s.subrange(enc1.len() as int, enc1.len() + enc2.len() as int) =~= enc2) by {
        assert forall|i: int| 0 <= i < enc2.len() implies s.subrange(
            enc1.len() as int,
            enc1.len() + enc2.len() as int,
        )[i] == enc2[i] by {
            assert(s[enc1.len() + i] == enc2[i]);
        }
    }
    lemma_runtime_service_entries_rt(s, enc1.len() as int, m.service_state_hashes, acc1);
    assert((ServiceRuntimeStateHashesView {
        runtime_state_hashes: acc1.runtime_state_hashes,
        service_state_hashes: acc1.service_state_hashes + m.service_state_hashes,
    }) =~~= m);
    assert(enc1.len() + enc2.len() as int == s.len());
}


/// The fixed width of one state hash value.
pub const HASH_SIZE: usize = 32;

/// One fixed-width state hash value.
pub struct StateHash {
    bytes: Vec<u8>,
}

impl View for StateHash {
    type V = Seq<u8>;

    closed spec fn view(&self) -> Seq<u8> {
        self.bytes@
    }
}

impl StateHash {
    /// A hash value is well formed when it has exactly the fixed width.
    pub open spec fn wf(&self) -> bool {
        self@.len() == HASH_SIZE
    }

    /// The hash's bytes.
    pub fn as_bytes(&self) -> (b: &Vec<u8>)
        ensures
            b@ == self@,
    {
        &self.bytes
    }
}

/// Wraps a byte string of the fixed hash width into a hash value.
pub fn to_hash(bytes: &Vec<u8>) -> (h: StateHash)
    requires
        bytes@.len() == HASH_SIZE,
    ensures
        h@ == bytes@,
        h.wf(),
{
    let mut copy: Vec<u8> = Vec::new();
    copy.extend_from_slice(bytes.as_slice());
    proof {
        assert(copy@ =~= bytes@);
    }
    StateHash { bytes: copy }
}

/// Whether every hash carried by a decoded aggregate has the fixed
/// width.
pub open spec fn spec_hashes_well_sized(m: ServiceRuntimeStateHashesView) -> bool {
    &&& forall|i: int| 0 <= i < m.runtime_state_hashes.len() ==> (
    #[trigger] m.runtime_state_hashes[i]).len() == HASH_SIZE
    &&& forall|i: int, j: int| 0 <= i < m.service_state_hashes.len() && 0 <= j
        < m.service_state_hashes[i].state_hashes.len() ==> (
    #[trigger] m.service_state_hashes[i].state_hashes[j]).len() == HASH_SIZE
}

/// Checks that every hash carried by a decoded aggregate has the fixed
/// width.
pub fn hashes_well_sized(m: &ServiceRuntimeStateHashes) -> (r: bool)
    ensures
        r == spec_hashes_well_sized(m@),
{
    let n = m.runtime_state_hashes.len();
    for i in 0..n
        invariant
            n == m.runtime_state_hashes@.len(),
            forall|k: int| 0 <= k < i ==> (#[trigger] m@.runtime_state_hashes[k]).len()
                == HASH_SIZE,
    {
        if m.runtime_state_hashes[i].len() != HASH_SIZE {
            proof {
                assert(m@.runtime_state_hashes[i as int].len() != HASH_SIZE);
            }
            return false;
        }
        proof {
            assert(m@.runtime_state_hashes[i as int] == m.runtime_state_hashes@[i as int]@);
        }
    }
    let k = m.service_state_hashes.len();
    for i in 0..k
        invariant
            k == m.service_state_hashes@.len(),
            forall|a: int| 0 <= a < m@.runtime_state_hashes.len() ==> (
            #[trigger] m@.runtime_state_hashes[a]).len() == HASH_SIZE,
            forall|a: int, b: int| 0 <= a < i && 0 <= b
                < m@.service_state_hashes[a].state_hashes.len() ==> (
            #[trigger] m@.service_state_hashes[a].state_hashes[b]).len() == HASH_SIZE,
    {
        let svc = &m.service_state_hashes[i];
        let c = svc.state_hashes.len();
        for j in 0..c
            invariant
                i < k,
                k == m.service_state_hashes@.len(),
                c == svc.state_hashes@.len(),
                svc@ == m@.service_state_hashes[i as int],
                forall|b: int| 0 <= b < j ==> (
                #[trigger] m@.service_state_hashes[i as int].state_hashes[b]).len() == HASH_SIZE,
        {
            if svc.state_hashes[j].len() != HASH_SIZE {
                proof {
                    assert(m@.service_state_hashes[i as int].state_hashes[j as int].len()
                        != HASH_SIZE);
                }
                return false;
            }
            proof {
                assert(m@.service_state_hashes[i as int].state_hashes[j as int]
                    == svc.state_hashes@[j as int]@);
            }
        }
    }
    true
}

/// The structured form the dispatcher expects for the collected state
/// hashes: the runtime's own hashes, and one entry per instance with
/// that instance's id and hashes.
pub struct StateHashAggregator {
    pub runtime: Vec<StateHash>,
    pub instances: Vec<(u32, Vec<StateHash>)>,
}

/// The mathematical content of the aggregated state hashes.
#[verifier::ext_equal]
pub struct StateHashAggregatorView {
    pub runtime: Seq<Seq<u8>>,
    pub instances: Seq<(u32, Seq<Seq<u8>>)>,
}

impl View for StateHashAggregator {
    type V = StateHashAggregatorView;

    open spec fn view(&self) -> StateHashAggregatorView {
        StateHashAggregatorView {
            runtime: Seq::new(self.runtime@.len(), |i: int| self.runtime@[i]@),
            instances: Seq::new(
                self.instances@.len(),
                |i: int| (
                    self.instances@[i].0,
                    Seq::new(self.instances@[i].1@.len(), |j: int| self.instances@[i].1@[j]@),
                ),
            ),
        }
    }
}

/// What a decoded aggregate looks like in the dispatcher's form: the
/// same hashes, each instance keeping its id and its hashes in order.
pub open spec fn spec_aggregate_of(m: ServiceRuntimeStateHashesView) -> StateHashAggregatorView {
    StateHashAggregatorView {
        runtime: m.runtime_state_hashes,
        instances: Seq::new(
            m.service_state_hashes.len(),
            |i: int| (m.service_state_hashes[i].instance_id, m.service_state_hashes[i].state_hashes),
        ),
    }
}

fn hashes_of(list: &Vec<Vec<u8>>) -> (r: Vec<StateHash>)
    requires
        forall|i: int| 0 <= i < list.deep_view().len() ==> (#[trigger] list.deep_view()[i]).len()
            == HASH_SIZE,
    ensures
        r@.len() == list@.len(),
        forall|i: int| 0 <= i < r@.len() ==> (#[trigger] r@[i]@) == list.deep_view()[i],
{
    let mut r: Vec<StateHash> = Vec::new();
    let n = list.len();
    for i in 0..n
        invariant
            n == list@.len(),
            forall|k: int| 0 <= k < list.deep_view().len() ==> (
            #[trigger] list.deep_view()[k]).len() == HASH_SIZE,
            r@.len() == i,
            forall|k: int| 0 <= k < i ==> (#[trigger] r@[k]@) == list.deep_view()[k],
    {
        proof {
            assert(list.deep_view()[i as int] == list@[i as int]@);
        }
        r.push(to_hash(&list[i]));
    }
    r
}

impl ServiceRuntimeStateHashes {
    /// The runtime's own state hashes, as hash values.
    pub fn runtime(&self) -> (r: Vec<StateHash>)
        requires
            spec_hashes_well_sized(self@),
        ensures
            r@.len() == self@.runtime_state_hashes.len(),
            forall|i: int| 0 <= i < r@.len() ==> (#[trigger] r@[i]@)
                == self@.runtime_state_hashes[i],
    {
        hashes_of(&self.runtime_state_hashes)
    }

    /// The per-instance state hashes, as pairs of instance id and hash
    /// values.
    pub fn instances(&self) -> (r: Vec<(u32, Vec<StateHash>)>)
        requires
            spec_hashes_well_sized(self@),
        ensures
            r@.len() == self@.service_state_hashes.len(),
            forall|i: int| 0 <= i < r@.len() ==> (#[trigger] r@[i].0)
                == self@.service_state_hashes[i].instance_id
                && r@[i].1@.len() == self@.service_state_hashes[i].state_hashes.len()
                && forall|j: int| 0 <= j < r@[i].1@.len() ==> (#[trigger] r@[i].1@[j]@)
                    == self@.service_state_hashes[i].state_hashes[j],
    {
        let mut r: Vec<(u32, Vec<StateHash>)> = Vec::new();
        let n = self.service_state_hashes.len();
        let mut i: usize = 0;
        while i < n
            invariant
                i <= n,
                n == self.service_state_hashes@.len(),
                spec_hashes_well_sized(self@),
                r@.len() == i,
                forall|k: int| 0 <= k < i ==> (#[trigger] r@[k].0)
                    == self@.service_state_hashes[k].instance_id
                    && r@[k].1@.len() == self@.service_state_hashes[k].state_hashes.len()
                    && forall|j: int| 0 <= j < r@[k].1@.len() ==> (#[trigger] r@[k].1@[j]@)
                        == self@.service_state_hashes[k].state_hashes[j],
            decreases n - i,
        {
            let svc = &self.service_state_hashes[i];
            proof {
                assert(svc@ == self@.service_state_hashes[i as int]);
                assert forall|j: int| 0 <= j < svc.state_hashes.deep_view().len() implies (
                #[trigger] svc.state_hashes.deep_view()[j]).len() == HASH_SIZE by {
                    assert(svc.state_hashes.deep_view()[j]
                        == self@.service_state_hashes[i as int].state_hashes[j]);
                }
            }
            let ghost hashes_view = svc.state_hashes.deep_view();
            let hashes = hashes_of(&svc.state_hashes);
            let instance_id = svc.instance_id;
            let ghost prev = r@;
            r.push((instance_id, hashes));
            proof {
                assert forall|k: int| 0 <= k < i + 1 implies (#[trigger] r@[k].0)
                    == self@.service_state_hashes[k].instance_id
                    && r@[k].1@.len() == self@.service_state_hashes[k].state_hashes.len()
                    && (forall|j: int| 0 <= j < r@[k].1@.len() ==> (#[trigger] r@[k].1@[j]@)
                        == self@.service_state_hashes[k].state_hashes[j]) by {
                    if k < i as int {
                        assert(r@[k] == prev[k]);
                        assert(prev[k].0 == self@.service_state_hashes[k].instance_id);
                        assert(prev[k].1@.len()
                            == self@.service_state_hashes[k].state_hashes.len());
                        assert(forall|j: int| 0 <= j < prev[k].1@.len() ==> (
                        #[trigger] prev[k].1@[j]@)
                            == self@.service_state_hashes[k].state_hashes[j]);
                    } else {
                        assert(r@[k] == (instance_id, hashes));
                        assert forall|j: int| 0 <= j < r@[k].1@.len() implies (
                        #[trigger] r@[k].1@[j]@)
                            == self@.service_state_hashes[k].state_hashes[j] by {
                            assert(r@[k].1@[j]@ == hashes_view[j]);
                        }
                    }
                }
            }
            i = i + 1;
        }
        r
    }

    /// The decoded aggregate in the dispatcher's structured form.
    pub fn into_aggregator(&self) -> (r: StateHashAggregator)
        requires
            spec_hashes_well_sized(self@),
        ensures
            r@ == spec_aggregate_of(self@),
    {
        let runtime = self.runtime();
        let instances = self.instances();
        let r = StateHashAggregator { runtime, instances };
        proof {
            assert(r@.runtime =~= spec_aggregate_of(self@).runtime);
            assert forall|i: int| 0 <= i < r@.instances.len() implies r@.instances[i]
                == spec_aggregate_of(self@).instances[i] by {
                assert(r@.instances[i].1 =~= spec_aggregate_of(self@).instances[i].1);
            }
            assert(r@.instances =~= spec_aggregate_of(self@).instances);
            assert(r@ =~~= spec_aggregate_of(self@));
        }
        r
    }
}

} // verus!
