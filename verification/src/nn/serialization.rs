use vstd::prelude::*;
use vstd::view::View as _;

use crate::engine::Values;
use crate::nn::fully_connected_layer::FullyConnectedLayer;
use crate::nn::multi_layer_perceptron::MultiLayerPerceptron;
use crate::nn::multi_layer_perceptron::not_param_below;
use crate::view::Index;

verus! {

/// Why a persisted parameter blob was rejected.
#[derive(Debug, Copy, Clone, Eq, PartialEq, Structural)]
pub enum DeserializeError {
    /// The blob ended before every expected field was read.
    TruncatedInput,
    /// The persisted input/output counts differ from the layer's.
    LayerShapeMismatch,
    /// The persisted layer count differs from the perceptron's.
    LayerCountMismatch,
}

/// Byte `k` of the little-endian encoding of `n`.
pub open spec fn le_byte(n: u64, k: int) -> u8 {
    ((n >> ((8 * k) as u64)) & 0xff) as u8
}

/// The eight little-endian bytes of `n`, least significant first.
pub open spec fn le_bytes_of(n: u64) -> Seq<u8> {
    Seq::new(8, |k: int| le_byte(n, k))
}

/// Two integers with the same little-endian bytes are equal.
pub proof fn lemma_le_bytes_injective(a: u64, b: u64)
    requires
        le_bytes_of(a) == le_bytes_of(b),
    ensures
        a == b,
{
    assert forall|k: int| 0 <= k < 8 implies le_byte(a, k) == le_byte(b, k) by {
        assert(le_bytes_of(a)[k] == le_byte(a, k));
        assert(le_bytes_of(b)[k] == le_byte(b, k));
        assert(le_bytes_of(a)[k] == le_bytes_of(b)[k]);
    }
    assert(le_byte(a, 0) == le_byte(b, 0));
    assert(le_byte(a, 1) == le_byte(b, 1));
    assert(le_byte(a, 2) == le_byte(b, 2));
    assert(le_byte(a, 3) == le_byte(b, 3));
    assert(le_byte(a, 4) == le_byte(b, 4));
    assert(le_byte(a, 5) == le_byte(b, 5));
    assert(le_byte(a, 6) == le_byte(b, 6));
    assert(le_byte(a, 7) == le_byte(b, 7));
    assert(a == b) by (bit_vector)
        requires
            ((a >> 0u64) & 0xff) as u8 == ((b >> 0u64) & 0xff) as u8,
            ((a >> 8u64) & 0xff) as u8 == ((b >> 8u64) & 0xff) as u8,
            ((a >> 16u64) & 0xff) as u8 == ((b >> 16u64) & 0xff) as u8,
            ((a >> 24u64) & 0xff) as u8 == ((b >> 24u64) & 0xff) as u8,
            ((a >> 32u64) & 0xff) as u8 == ((b >> 32u64) & 0xff) as u8,
            ((a >> 40u64) & 0xff) as u8 == ((b >> 40u64) & 0xff) as u8,
            ((a >> 48u64) & 0xff) as u8 == ((b >> 48u64) & 0xff) as u8,
            ((a >> 56u64) & 0xff) as u8 == ((b >> 56u64) & 0xff) as u8,
    ;
}

/// Relies on byteorder's `LittleEndian::write_u64`: it copies the integer's
/// eight little-endian bytes (`n.to_le_bytes()`) into the start of the
/// buffer handed to it.
#[verifier::external_body]
fn le_write_u64(out: &mut Vec<u8>, n: u64)
    ensures
        final(out)@ == old(out)@ + le_bytes_of(n),
{
    let mut buf = [0u8; 8];
    <byteorder::LittleEndian as byteorder::ByteOrder>::write_u64(&mut buf, n);
    out.extend_from_slice(&buf);
}

/// Relies on byteorder's `LittleEndian::read_u64`: it reads one `u64` from
/// the first eight bytes of the buffer, least significant byte first.
#[verifier::external_body]
fn le_read_u64(buf: &[u8]) -> (r: u64)
    requires
        buf@.len() >= 8,
    ensures
        le_bytes_of(r) == buf@.subrange(0, 8),
{
    <byteorder::LittleEndian as byteorder::ByteOrder>::read_u64(buf)
}

/// The number of bytes one layer persists: two shape fields, then one
/// eight-byte value per parameter.
pub open spec fn layer_blob_len(layer: FullyConnectedLayer) -> int {
    16 + 8 * layer.spec_output_offset()
}

/// What a valid persisted layer looks like against `layer` and the encoded
/// parameter values `bits`: the two shape fields, then the encodings of the
/// parameter values in handle order.
pub open spec fn layer_blob_ok(
    layer: FullyConnectedLayer,
    bits: Seq<u64>,
    blob: Seq<u8>,
) -> bool {
    &&& blob.len() == layer_blob_len(layer)
    &&& bits.len() == layer.spec_output_offset()
    &&& blob.subrange(0, 8) == le_bytes_of(layer.input_size.0 as u64)
    &&& blob.subrange(8, 16) == le_bytes_of(layer.output_size.0 as u64)
    &&& forall|j: int|
        0 <= j < layer.spec_output_offset() ==> blob.subrange(16 + 8 * j, 24 + 8 * j)
            == le_bytes_of(#[trigger] bits[j])
}

/// When a persisted layer blob is accepted against `layer`: long enough,
/// and the two persisted shape fields equal the layer's sizes.
pub open spec fn layer_blob_accepted(layer: FullyConnectedLayer, blob: Seq<u8>) -> bool {
    &&& blob.len() >= layer_blob_len(layer)
    &&& blob.subrange(0, 8) == le_bytes_of(layer.input_size.0 as u64)
    &&& blob.subrange(8, 16) == le_bytes_of(layer.output_size.0 as u64)
}

/// What a completed restore looks like: `bits` are the eight-byte values
/// read from the blob, and each parameter slot holds a result of decoding
/// its value.
pub open spec fn layer_restored<T, FB: Fn(u64) -> T>(
    layer: FullyConnectedLayer,
    from_bits: FB,
    blob: Seq<u8>,
    bits: Seq<u64>,
    vals: Seq<T>,
) -> bool {
    &&& bits.len() == layer.spec_output_offset()
    &&& forall|j: int|
        0 <= j < layer.spec_output_offset() ==> le_bytes_of(#[trigger] bits[j]) == blob.subrange(
            16 + 8 * j,
            24 + 8 * j,
        )
    &&& forall|j: int|
        0 <= j < layer.spec_output_offset() ==> call_ensures(
            from_bits,
            (bits[j],),
            vals[(#[trigger] layer.spec_vars()[j]).idx()],
        )
}

impl FullyConnectedLayer {
    /// Persists the layer's parameter values: the input count and output
    /// count as eight-byte little-endian integers, then each parameter's
    /// value, encoded to eight bytes by `to_bits`, in handle order (weights
    /// first, then biases).
    pub fn serialize<T: Copy, FB: Fn(T) -> u64>(
        &self,
        values: &Values<T>,
        to_bits: FB,
    ) -> (r: Vec<u8>)
        requires
            self.wf(),
            self.ids_below(values@.len() as int),
            forall|v: T| call_requires(to_bits, (v,)),
        ensures
            exists|bits: Seq<u64>|
                {
                    &&& #[trigger] layer_blob_ok(*self, bits, r@)
                    &&& forall|j: int|
                        0 <= j < self.spec_output_offset() ==> call_ensures(
                            to_bits,
                            (values@[(#[trigger] self.spec_vars()[j]).idx()],),
                            bits[j],
                        )
                },
    {
        let output_offset = self.output_offset();
        let mut r: Vec<u8> = Vec::new();
        le_write_u64(&mut r, self.input_size.into_usize() as u64);
        le_write_u64(&mut r, self.output_size.into_usize() as u64);
        let ghost mut bits: Seq<u64> = Seq::empty();
        let mut j: usize = 0;
        while j < output_offset
            invariant
                self.wf(),
                self.ids_below(values@.len() as int),
                forall|v: T| call_requires(to_bits, (v,)),
                j <= output_offset,
                output_offset == self.spec_output_offset(),
                output_offset <= self.spec_vars().len(),
                bits.len() == j,
                r@.len() == 16 + 8 * j,
                r@.subrange(0, 8) == le_bytes_of(self.input_size.0 as u64),
                r@.subrange(8, 16) == le_bytes_of(self.output_size.0 as u64),
                forall|k: int|
                    0 <= k < j ==> r@.subrange(16 + 8 * k, 24 + 8 * k) == le_bytes_of(
                        #[trigger] bits[k],
                    ),
                forall|k: int|
                    0 <= k < j ==> call_ensures(
                        to_bits,
                        (values@[(#[trigger] self.spec_vars()[k]).idx()],),
                        bits[k],
                    ),
            decreases output_offset - j,
        {
            let ghost pre = r@;
            let node = self.vars[j];
            let b = to_bits(values.get(node));
            le_write_u64(&mut r, b);
            proof {
                bits = bits.push(b);
                assert(r@.subrange(0, 8) =~= pre.subrange(0, 8));
                assert(r@.subrange(8, 16) =~= pre.subrange(8, 16));
                assert forall|k: int| 0 <= k < j + 1 implies r@.subrange(16 + 8 * k, 24 + 8 * k)
                    == le_bytes_of(#[trigger] bits[k]) by {
                    if k < j {
                        assert(r@.subrange(16 + 8 * k, 24 + 8 * k) =~= pre.subrange(
                            16 + 8 * k,
                            24 + 8 * k,
                        ));
                    } else {
                        assert(r@.subrange(16 + 8 * k, 24 + 8 * k) =~= le_bytes_of(b));
                    }
                }
            }
            j = j + 1;
        }
        proof {
            assert(layer_blob_ok(*self, bits, r@));
        }
        r
    }

    /// Restores the layer's parameter values from the start of `blob`:
    /// validates the two persisted shape fields against the layer, then
    /// decodes one eight-byte value per parameter with `from_bits` and
    /// writes it into that parameter's slot. Succeeds exactly when the blob
    /// is long enough and the shape fields match; on failure nothing is
    /// written.
    pub fn deserialize<T: Copy, FB: Fn(u64) -> T>(
        &self,
        values: &mut Values<T>,
        blob: &[u8],
        from_bits: FB,
    ) -> (r: Result<(), DeserializeError>)
        requires
            self.wf(),
            self.ids_below(old(values)@.len() as int),
            forall|b: u64| call_requires(from_bits, (b,)),
        ensures
            final(values)@.len() == old(values)@.len(),
            r is Ok <==> layer_blob_accepted(*self, blob@),
            r is Err ==> final(values)@ == old(values)@,
            r is Err ==> r == Err::<(), DeserializeError>(DeserializeError::TruncatedInput) || r
                == Err::<(), DeserializeError>(DeserializeError::LayerShapeMismatch),
            r == Err::<(), DeserializeError>(DeserializeError::TruncatedInput) <==> (blob@.len()
                < 16 || (blob@.len() < layer_blob_len(*self) && blob@.subrange(0, 8)
                == le_bytes_of(self.input_size.0 as u64) && blob@.subrange(8, 16) == le_bytes_of(
                self.output_size.0 as u64,
            ))),
            r == Err::<(), DeserializeError>(DeserializeError::LayerShapeMismatch) <==> (
            blob@.len() >= 16 && !(blob@.subrange(0, 8) == le_bytes_of(self.input_size.0 as u64)
                && blob@.subrange(8, 16) == le_bytes_of(self.output_size.0 as u64))),
            r is Ok ==> exists|bs: Seq<u64>|
                #[trigger] layer_restored(*self, from_bits, blob@, bs, final(values)@),
            r is Ok ==> forall|i: int|
                0 <= i < old(values)@.len() && (forall|j: int|
                    0 <= j < self.spec_output_offset() ==> (#[trigger] self.spec_vars()[j]).idx()
                        != i) ==> final(values)@[i] == old(values)@[i],
    {
        let output_offset = self.output_offset();
        if blob.len() < 16 {
            return Err(DeserializeError::TruncatedInput);
        }
        let persisted_input = le_read_u64(blob);
        let rest = &blob[8..blob.len()];
        let persisted_output = le_read_u64(rest);
        proof {
            assert(rest@.subrange(0, 8) =~= blob@.subrange(8, 16));
        }
        let expected_input = self.input_size.into_usize() as u64;
        let expected_output = self.output_size.into_usize() as u64;
        if persisted_input != expected_input || persisted_output != expected_output {
            proof {
                if blob@.subrange(0, 8) == le_bytes_of(expected_input) && blob@.subrange(8, 16)
                    == le_bytes_of(expected_output) {
                    lemma_le_bytes_injective(persisted_input, expected_input);
                    lemma_le_bytes_injective(persisted_output, expected_output);
                }
            }
            return Err(DeserializeError::LayerShapeMismatch);
        }
        proof {
            assert(blob@.subrange(0, 8) == le_bytes_of(expected_input));
            assert(blob@.subrange(8, 16) == le_bytes_of(expected_output));
        }
        if (blob.len() - 16) / 8 < output_offset {
            proof {
                assert(blob@.len() - 16 < 8 * output_offset) by (nonlinear_arith)
                    requires
                        blob@.len() >= 16,
                        ((blob@.len() - 16) as int) / 8 < output_offset as int,
                ;
            }
            return Err(DeserializeError::TruncatedInput);
        }
        proof {
            assert(blob@.len() - 16 >= 8 * output_offset) by (nonlinear_arith)
                requires
                    blob@.len() >= 16,
                    ((blob@.len() - 16) as int) / 8 >= output_offset as int,
            ;
        }
        let ghost mut bits: Seq<u64> = Seq::empty();
        let mut j: usize = 0;
        while j < output_offset
            invariant
                self.wf(),
                self.ids_below(old(values)@.len() as int),
                forall|b: u64| call_requires(from_bits, (b,)),
                j <= output_offset,
                output_offset == self.spec_output_offset(),
                output_offset <= self.spec_vars().len(),
                blob@.len() >= 16 + 8 * output_offset,
                blob@.len() <= usize::MAX,
                values@.len() == old(values)@.len(),
                bits.len() == j,
                forall|k: int|
                    0 <= k < j ==> le_bytes_of(#[trigger] bits[k]) == blob@.subrange(
                        16 + 8 * k,
                        24 + 8 * k,
                    ),
                forall|k: int|
                    0 <= k < j ==> call_ensures(
                        from_bits,
                        (bits[k],),
                        values@[(#[trigger] self.spec_vars()[k]).idx()],
                    ),
                forall|i: int|
                    0 <= i < old(values)@.len() && (forall|k: int|
                        0 <= k < j ==> (#[trigger] self.spec_vars()[k]).idx() != i)
                        ==> values@[i] == old(values)@[i],
            decreases output_offset - j,
        {
            let chunk = &blob[16 + 8 * j..blob.len()];
            let b = le_read_u64(chunk);
            proof {
                assert(chunk@.subrange(0, 8) =~= blob@.subrange(16 + 8 * j, 24 + 8 * j));
                bits = bits.push(b);
            }
            let v = from_bits(b);
            values.set(self.vars[j], v);
            j = j + 1;
        }
        proof {
            assert(layer_restored(*self, from_bits, blob@, bits, values@));
        }
        Ok(())
    }
}


/// The bytes of all layer blobs, in layer order.
pub open spec fn concat_blobs(blobs: Seq<Seq<u8>>) -> Seq<u8>
    decreases blobs.len(),
{
    if blobs.len() == 0 {
        Seq::empty()
    } else {
        concat_blobs(blobs.drop_last()) + blobs.last()
    }
}

/// What a persisted perceptron looks like: the layer count, then each
/// layer's blob, each holding the encodings of that layer's parameter
/// values.
pub open spec fn mlp_serialized<T, FB: Fn(T) -> u64>(
    layers: Seq<FullyConnectedLayer>,
    vals: Seq<T>,
    to_bits: FB,
    blobs: Seq<Seq<u8>>,
    bitss: Seq<Seq<u64>>,
    whole: Seq<u8>,
) -> bool {
    &&& blobs.len() == layers.len()
    &&& bitss.len() == layers.len()
    &&& whole == le_bytes_of(layers.len() as u64) + concat_blobs(blobs)
    &&& forall|k: int|
        0 <= k < layers.len() ==> layer_blob_ok(layers[k], bitss[k], #[trigger] blobs[k])
    &&& forall|k: int, j: int|
        #![trigger bitss[k][j]]
        0 <= k < layers.len() && 0 <= j < layers[k].spec_output_offset() ==> call_ensures(
            to_bits,
            (vals[layers[k].spec_vars()[j].idx()],),
            bitss[k][j],
        )
}

/// When a persisted run of layer blobs is accepted against `layers`: each
/// layer accepts its blob, at the position after its predecessors' blobs.
pub open spec fn layers_blob_accepted(layers: Seq<FullyConnectedLayer>, rest: Seq<u8>) -> bool
    decreases layers.len(),
{
    if layers.len() == 0 {
        true
    } else {
        &&& layer_blob_accepted(layers[0], rest)
        &&& layers_blob_accepted(
            layers.subrange(1, layers.len() as int),
            rest.skip(layer_blob_len(layers[0])),
        )
    }
}

/// When a persisted perceptron blob is accepted against `layers`: the
/// persisted layer count equals theirs, and every layer accepts its blob.
pub open spec fn mlp_blob_accepted(layers: Seq<FullyConnectedLayer>, blob: Seq<u8>) -> bool {
    &&& blob.len() >= 8
    &&& blob.subrange(0, 8) == le_bytes_of(layers.len() as u64)
    &&& layers_blob_accepted(layers, blob.skip(8))
}


/// Where layer `k`'s blob starts inside a perceptron blob: after the
/// eight-byte count field and the blobs of the layers before it.
pub open spec fn mlp_layer_offset(layers: Seq<FullyConnectedLayer>, k: int) -> int
    decreases k,
{
    if k <= 0 {
        8
    } else {
        mlp_layer_offset(layers, k - 1) + layer_blob_len(layers[k - 1])
    }
}

/// How many leading layers accept their blob, each at its position inside
/// `rest` (the bytes after the count field).
pub open spec fn accepted_prefix_len(layers: Seq<FullyConnectedLayer>, rest: Seq<u8>) -> int
    decreases layers.len(),
{
    if layers.len() == 0 {
        0
    } else if !layer_blob_accepted(layers[0], rest) {
        0
    } else {
        1 + accepted_prefix_len(
            layers.subrange(1, layers.len() as int),
            rest.skip(layer_blob_len(layers[0])),
        )
    }
}

/// How many leading layers a perceptron restore writes before it stops:
/// none unless the count field matches, and then one per accepted layer
/// blob, in order, up to the first rejected one.
pub open spec fn mlp_restored_layers(layers: Seq<FullyConnectedLayer>, blob: Seq<u8>) -> int {
    if blob.len() >= 8 && blob.subrange(0, 8) == le_bytes_of(layers.len() as u64) {
        accepted_prefix_len(layers, blob.skip(8))
    } else {
        0
    }
}

/// The error the first rejected layer reports: truncation when its blob is
/// too short, a shape mismatch when both shape fields are present but
/// disagree with the layer's sizes.
pub open spec fn layers_blob_error(
    layers: Seq<FullyConnectedLayer>,
    rest: Seq<u8>,
) -> DeserializeError
    decreases layers.len(),
{
    if layers.len() == 0 {
        DeserializeError::TruncatedInput
    } else if !layer_blob_accepted(layers[0], rest) {
        if rest.len() < 16 {
            DeserializeError::TruncatedInput
        } else if !(rest.subrange(0, 8) == le_bytes_of(layers[0].input_size.0 as u64)
            && rest.subrange(8, 16) == le_bytes_of(layers[0].output_size.0 as u64)) {
            DeserializeError::LayerShapeMismatch
        } else {
            DeserializeError::TruncatedInput
        }
    } else {
        layers_blob_error(
            layers.subrange(1, layers.len() as int),
            rest.skip(layer_blob_len(layers[0])),
        )
    }
}

/// The first `upto` layers are restored: each one's parameter slots hold
/// decodings of its blob, found at its offset after its predecessors'
/// blobs, with `bitss[k]` the eight-byte values read for layer `k`.
pub open spec fn mlp_prefix_restored<T, FB: Fn(u64) -> T>(
    layers: Seq<FullyConnectedLayer>,
    from_bits: FB,
    blob: Seq<u8>,
    bitss: Seq<Seq<u64>>,
    upto: int,
    vals: Seq<T>,
) -> bool {
    &&& bitss.len() == upto
    &&& forall|k: int|
        #![trigger bitss[k]]
        0 <= k < upto ==> layer_restored(
            layers[k],
            from_bits,
            blob.skip(mlp_layer_offset(layers, k)),
            bitss[k],
            vals,
        )
}

impl MultiLayerPerceptron {
    /// Persists every layer's parameter values: the layer count as an
    /// eight-byte little-endian integer, then each layer's blob in order.
    pub fn serialize<T: Copy, FB: Fn(T) -> u64 + Copy>(
        &self,
        values: &Values<T>,
        to_bits: FB,
    ) -> (r: Vec<u8>)
        requires
            self.wf(),
            self.ids_below(values@.len() as int),
            forall|v: T| call_requires(to_bits, (v,)),
        ensures
            exists|blobs: Seq<Seq<u8>>, bitss: Seq<Seq<u64>>|
                #[trigger] mlp_serialized(self.layers@, values@, to_bits, blobs, bitss, r@),
    {
        let n = self.layers.len();
        let mut r: Vec<u8> = Vec::new();
        le_write_u64(&mut r, n as u64);
        let ghost mut blobs: Seq<Seq<u8>> = Seq::empty();
        let ghost mut bitss: Seq<Seq<u64>> = Seq::empty();
        let mut k: usize = 0;
        while k < n
            invariant
                self.wf(),
                self.ids_below(values@.len() as int),
                forall|v: T| call_requires(to_bits, (v,)),
                k <= n,
                n == self.layers@.len(),
                blobs.len() == k,
                bitss.len() == k,
                r@ == le_bytes_of(n as u64) + concat_blobs(blobs),
                forall|kk: int|
                    0 <= kk < k ==> layer_blob_ok(
                        self.layers@[kk],
                        bitss[kk],
                        #[trigger] blobs[kk],
                    ),
                forall|kk: int, j: int|
                    #![trigger bitss[kk][j]]
                    0 <= kk < k && 0 <= j < self.layers@[kk].spec_output_offset() ==> call_ensures(
                        to_bits,
                        (values@[self.layers@[kk].spec_vars()[j].idx()],),
                        bitss[kk][j],
                    ),
            decreases n - k,
        {
            let mut piece = self.layers[k].serialize(values, to_bits);
            let ghost pp: Seq<u8> = piece@;
            let ghost blobs_pre: Seq<Seq<u8>> = blobs;
            proof {
                let bs = choose|bits: Seq<u64>|
                    {
                        &&& #[trigger] layer_blob_ok(self.layers@[k as int], bits, piece@)
                        &&& forall|j: int|
                            0 <= j < self.layers@[k as int].spec_output_offset() ==> call_ensures(
                                to_bits,
                                (values@[(#[trigger] self.layers@[k as int].spec_vars()[j]).idx()],),
                                bits[j],
                            )
                    };
                blobs = blobs.push(pp);
                bitss = bitss.push(bs);
            }
            r.append(&mut piece);
            proof {
                assert(blobs.drop_last() =~= blobs_pre);
                assert(concat_blobs(blobs) == concat_blobs(blobs_pre) + pp);
            }
            k = k + 1;
        }
        proof {
            assert(mlp_serialized(self.layers@, values@, to_bits, blobs, bitss, r@));
        }
        r
    }

    /// Restores the layers' parameter values from `blob`: validates the
    /// persisted layer count, then hands each layer its blob in order.
    /// Succeeds exactly when the count matches and every layer accepts its
    /// blob; the first rejected blob stops the restore with that layer's
    /// error. The layers before the stop have their parameter slots
    /// restored from their blobs, as with a streaming reader, and every
    /// other slot of `values` is left untouched.
    pub fn deserialize<T: Copy, FB: Fn(u64) -> T + Copy>(
        &self,
        values: &mut Values<T>,
        blob: &[u8],
        from_bits: FB,
    ) -> (r: Result<(), DeserializeError>)
        requires
            self.wf(),
            self.ids_below(old(values)@.len() as int),
            forall|b: u64| call_requires(from_bits, (b,)),
        ensures
            final(values)@.len() == old(values)@.len(),
            r is Ok <==> mlp_blob_accepted(self.layers@, blob@),
            blob@.len() < 8 ==> r == Err::<(), DeserializeError>(DeserializeError::TruncatedInput),
            r == Err::<(), DeserializeError>(DeserializeError::LayerCountMismatch) <==> (
            blob@.len() >= 8 && blob@.subrange(0, 8) != le_bytes_of(self.layers@.len() as u64)),
            (blob@.len() >= 8 && blob@.subrange(0, 8) == le_bytes_of(self.layers@.len() as u64)
                && !layers_blob_accepted(self.layers@, blob@.skip(8))) ==> r == Err::<
                (),
                DeserializeError,
            >(layers_blob_error(self.layers@, blob@.skip(8))),
            exists|bitss: Seq<Seq<u64>>|
                #[trigger] mlp_prefix_restored(
                    self.layers@,
                    from_bits,
                    blob@,
                    bitss,
                    mlp_restored_layers(self.layers@, blob@),
                    final(values)@,
                ),
            forall|i: int|
                0 <= i < old(values)@.len() && not_param_below(
                    self.layers@,
                    mlp_restored_layers(self.layers@, blob@),
                    i,
                ) ==> final(values)@[i] == old(values)@[i],
    {
        let n = self.layers.len();
        let ghost mut bitss: Seq<Seq<u64>> = Seq::empty();
        if blob.len() < 8 {
            proof {
                assert(mlp_restored_layers(self.layers@, blob@) == 0);
                assert(mlp_prefix_restored(
                    self.layers@,
                    from_bits,
                    blob@,
                    bitss,
                    mlp_restored_layers(self.layers@, blob@),
                    values@,
                ));
            }
            return Err(DeserializeError::TruncatedInput);
        }
        let persisted_count = le_read_u64(blob);
        if persisted_count != n as u64 {
            proof {
                if blob@.subrange(0, 8) == le_bytes_of(n as u64) {
                    lemma_le_bytes_injective(persisted_count, n as u64);
                }
                assert(mlp_restored_layers(self.layers@, blob@) == 0);
                assert(mlp_prefix_restored(
                    self.layers@,
                    from_bits,
                    blob@,
                    bitss,
                    mlp_restored_layers(self.layers@, blob@),
                    values@,
                ));
            }
            return Err(DeserializeError::LayerCountMismatch);
        }
        proof {
            assert(blob@.subrange(0, 8) == le_bytes_of(n as u64));
        }
        let mut pos: usize = 8;
        proof {
            assert(self.layers@.subrange(0, n as int) =~= self.layers@);
            assert(blob@.skip(8) =~= blob@.skip(8 as int));
        }
        let mut k: usize = 0;
        while k < n
            invariant
                self.wf(),
                self.ids_below(old(values)@.len() as int),
                forall|b: u64| call_requires(from_bits, (b,)),
                k <= n,
                n == self.layers@.len(),
                8 <= pos <= blob@.len(),
                blob@.len() <= usize::MAX,
                blob@.subrange(0, 8) == le_bytes_of(n as u64),
                values@.len() == old(values)@.len(),
                pos as int == mlp_layer_offset(self.layers@, k as int),
                layers_blob_accepted(self.layers@, blob@.skip(8)) <==> layers_blob_accepted(
                    self.layers@.subrange(k as int, n as int),
                    blob@.skip(pos as int),
                ),
                accepted_prefix_len(self.layers@, blob@.skip(8)) == k as int + accepted_prefix_len(
                    self.layers@.subrange(k as int, n as int),
                    blob@.skip(pos as int),
                ),
                !layers_blob_accepted(
                    self.layers@.subrange(k as int, n as int),
                    blob@.skip(pos as int),
                ) ==> layers_blob_error(self.layers@, blob@.skip(8)) == layers_blob_error(
                    self.layers@.subrange(k as int, n as int),
                    blob@.skip(pos as int),
                ),
                mlp_prefix_restored(self.layers@, from_bits, blob@, bitss, k as int, values@),
                forall|i: int|
                    0 <= i < old(values)@.len() && not_param_below(self.layers@, k as int, i)
                        ==> values@[i] == old(values)@[i],
            decreases n - k,
        {
            let rest = &blob[pos..blob.len()];
            let ghost suffix = self.layers@.subrange(k as int, n as int);
            let ghost pre_vals: Seq<T> = values@;
            proof {
                assert(suffix[0] == self.layers@[k as int]);
                assert(suffix.subrange(1, suffix.len() as int) =~= self.layers@.subrange(
                    k as int + 1,
                    n as int,
                ));
                assert(rest@ =~= blob@.skip(pos as int));
            }
            match self.layers[k].deserialize(values, rest, from_bits) {
                Ok(()) => {},
                Err(e) => {
                    proof {
                        let kk = k as int;
                        assert(self.layers@[kk].spec_bias_offset() >= 0) by (nonlinear_arith)
                            requires
                                self.layers@[kk].spec_bias_offset() == self.layers@[kk].input_size.as_int() * self.layers@[kk].output_size.as_int(),
                                self.layers@[kk].input_size.as_int() >= 0,
                                self.layers@[kk].output_size.as_int() >= 0,
                        ;
                        assert(!layer_blob_accepted(self.layers@[kk], blob@.skip(pos as int)));
                        assert(accepted_prefix_len(suffix, blob@.skip(pos as int)) == 0);
                        assert(mlp_restored_layers(self.layers@, blob@) == kk);
                        assert(layers_blob_error(suffix, blob@.skip(pos as int)) == e);
                        assert(!layers_blob_accepted(suffix, blob@.skip(pos as int)));
                        assert(layers_blob_error(self.layers@, blob@.skip(8)) == e);
                        assert(mlp_prefix_restored(
                            self.layers@,
                            from_bits,
                            blob@,
                            bitss,
                            mlp_restored_layers(self.layers@, blob@),
                            values@,
                        ));
                    }
                    return Err(e);
                },
            }
            proof {
                let kk = k as int;
                let bs = choose|bs: Seq<u64>|
                    #[trigger] layer_restored(self.layers@[kk], from_bits, rest@, bs, values@);
                assert(layer_restored(
                    self.layers@[kk],
                    from_bits,
                    blob@.skip(pos as int),
                    bs,
                    values@,
                ));
                let ghost bitss_pre = bitss;
                bitss = bitss.push(bs);
                assert forall|j: int| #![trigger bitss[j]] 0 <= j < kk implies layer_restored(
                    self.layers@[j],
                    from_bits,
                    blob@.skip(mlp_layer_offset(self.layers@, j)),
                    bitss[j],
                    values@,
                ) by {
                    assert(bitss[j] == bitss_pre[j]);
                    assert forall|jj: int|
                        0 <= jj < self.layers@[j].spec_output_offset() implies values@[(
                    #[trigger] self.layers@[j].spec_vars()[jj]).idx()] == pre_vals[self.layers@[j].spec_vars()[jj].idx()] by {
                        let i = self.layers@[j].spec_vars()[jj].idx();
                        assert forall|j2: int|
                            0 <= j2 < self.layers@[kk].spec_output_offset() implies (
                        #[trigger] self.layers@[kk].spec_vars()[j2]).idx() != i by {
                            assert(self.layers@[j].spec_output_count() >= 0) by (nonlinear_arith)
                                requires
                                    self.layers@[j].spec_output_count() == self.layers@[j].batch_size.as_int() * self.layers@[j].output_size.as_int(),
                                    self.layers@[j].batch_size.as_int() >= 0,
                                    self.layers@[j].output_size.as_int() >= 0,
                            ;
                            assert(self.layers@[j].spec_vars()[jj].idx() < self.layers@[kk].spec_vars()[j2].idx());
                        }
                    }
                    assert(layer_restored(
                        self.layers@[j],
                        from_bits,
                        blob@.skip(mlp_layer_offset(self.layers@, j)),
                        bitss_pre[j],
                        pre_vals,
                    ));
                }
                assert(mlp_prefix_restored(
                    self.layers@,
                    from_bits,
                    blob@,
                    bitss,
                    kk + 1,
                    values@,
                ));
                assert forall|i: int|
                    0 <= i < old(values)@.len() && not_param_below(
                        self.layers@,
                        kk + 1,
                        i,
                    ) implies values@[i] == old(values)@[i] by {
                    assert forall|j2: int|
                        0 <= j2 < self.layers@[kk].spec_output_offset() implies (
                    #[trigger] self.layers@[kk].spec_vars()[j2]).idx() != i by {}
                    assert(not_param_below(self.layers@, kk, i));
                    assert(pre_vals[i] == old(values)@[i]);
                    assert(values@[i] == pre_vals[i]);
                }
            }
            let layer_len = 16 + 8 * self.layers[k].output_offset();
            proof {
                assert(blob@.skip(pos as int).skip(layer_blob_len(self.layers@[k as int]))
                    =~= blob@.skip(pos as int + layer_blob_len(self.layers@[k as int])));
                assert(mlp_layer_offset(self.layers@, k as int + 1) == mlp_layer_offset(
                    self.layers@,
                    k as int,
                ) + layer_blob_len(self.layers@[k as int]));
            }
            pos = pos + layer_len;
            k = k + 1;
        }
        proof {
            assert(layers_blob_accepted(
                self.layers@.subrange(n as int, n as int),
                blob@.skip(pos as int),
            ));
            assert(accepted_prefix_len(
                self.layers@.subrange(n as int, n as int),
                blob@.skip(pos as int),
            ) == 0);
            assert(mlp_restored_layers(self.layers@, blob@) == n as int);
            assert(mlp_prefix_restored(
                self.layers@,
                from_bits,
                blob@,
                bitss,
                mlp_restored_layers(self.layers@, blob@),
                values@,
            ));
        }
        Ok(())
    }
}

} // verus!
