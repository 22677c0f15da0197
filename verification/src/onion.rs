//! The layers of a circuit's encryption: one cipher for each hop.

use crate::crypto;
use crate::crypto::{CipherView, CircuitCipher};
use vstd::prelude::*;

verus! {

/// `data` under the layers of all these ciphers: the first one is outermost. Every layer is an
/// exclusive or, so this also takes the layers off again.
pub open spec fn onion(layers: Seq<CipherView>, data: Seq<u8>) -> Seq<u8>
    decreases layers.len(),
{
    if layers.len() == 0 {
        data
    } else {
        layers[0].output(onion(layers.drop_first(), data))
    }
}

/// Whether every keystream lasts for `len` more bytes.
pub open spec fn have_room(layers: Seq<CipherView>, len: nat) -> bool {
    forall|i: int| 0 <= i < layers.len() ==> (#[trigger] layers[i]).has_room(len)
}

/// The ciphers after `len` bytes.
pub open spec fn layers_after(layers: Seq<CipherView>, len: nat) -> Seq<CipherView> {
    layers.map_values(|c: CipherView| c.after(len))
}

/// The ciphers of one direction of a circuit, one for each hop, the nearest hop first.
#[derive(Debug)]
pub struct Layers {
    pub ciphers: Vec<CircuitCipher>,
}

pub open spec fn cipher_views(ciphers: Seq<CircuitCipher>) -> Seq<CipherView> {
    ciphers.map_values(|c: CircuitCipher| c@)
}

impl View for Layers {
    type V = Seq<CipherView>;

    open spec fn view(&self) -> Seq<CipherView> {
        cipher_views(self.ciphers@)
    }
}

impl Layers {
    /// The layers of a circuit of one hop.
    pub fn one(cipher: CircuitCipher) -> (r: Layers)
        ensures
            r@ == seq![cipher@],
    {
        let mut ciphers: Vec<CircuitCipher> = Vec::new();
        ciphers.push(cipher);
        let r = Layers { ciphers };
        assert(r@ =~= seq![cipher@]);
        r
    }

    /// Adds a hop at the far end.
    pub fn push(&mut self, cipher: CircuitCipher)
        ensures
            final(self)@ == old(self)@.push(cipher@),
    {
        self.ciphers.push(cipher);
        assert(self@ =~= old(self)@.push(cipher@));
    }

    fn lasts_for(&self, len: usize) -> (r: bool)
        ensures
            r == have_room(self@, len as nat),
    {
        let n: usize = self.ciphers.len();
        let mut i: usize = 0;
        while i < n
            invariant
                n == self.ciphers@.len(),
                i <= n,
                forall|j: int| 0 <= j < i ==> (#[trigger] self@[j]).has_room(len as nat),
            decreases n - i,
        {
            assert(self@[i as int] == self.ciphers@[i as int]@);
            if !self.ciphers[i].lasts_for(len) {
                return false;
            }
            i = i + 1;
        }
        true
    }

    /// Puts all layers on `data` in place, or takes them off. Returns `false`, and changes nothing,
    /// where a keystream is used up.
    pub fn apply(&mut self, data: &mut Vec<u8>) -> (r: bool)
        ensures
            r == have_room(old(self)@, old(data)@.len()),
            r ==> final(data)@ == onion(old(self)@, old(data)@) && final(self)@ == layers_after(
                old(self)@,
                old(data)@.len(),
            ),
            !r ==> final(data)@ == old(data)@ && final(self)@ == old(self)@,
    {
        if !self.lasts_for(data.len()) {
            return false;
        }
        let ghost layers = self@;
        let ghost plain = data@;
        let ghost len = data@.len();
        let n: usize = self.ciphers.len();
        let mut i: usize = n;
        proof {
            assert(layers.skip(n as int) =~= Seq::empty());
        }
        while i > 0
            invariant
                i <= n,
                n == self.ciphers@.len(),
                layers.len() == n,
                data@.len() == len,
                len == plain.len(),
                have_room(layers, len),
                data@ == onion(layers.skip(i as int), plain),
                forall|j: int| 0 <= j < i ==> (#[trigger] self@[j]) == layers[j],
                forall|j: int| i <= j < n ==> (#[trigger] self@[j]) == layers[j].after(len),
            decreases i,
        {
            i = i - 1;
            let mut cipher = self.ciphers[i];
            assert(self@[i as int] == cipher@);
            let ghost before = self@;
            let _ = cipher.apply(data);
            self.ciphers.set(i, cipher);
            proof {
                assert(layers[i as int].has_room(len));
                assert(layers.skip(i as int)[0] == layers[i as int]);
                assert(layers.skip(i as int).drop_first() =~= layers.skip(i + 1));
                assert(self@ =~= before.update(i as int, cipher@));
            }
        }
        proof {
            assert(layers.skip(0) =~= layers);
            assert(self@ =~= layers_after(layers, len));
        }
        true
    }
}

pub proof fn lemma_onion_len(layers: Seq<CipherView>, data: Seq<u8>)
    ensures
        onion(layers, data).len() == data.len(),
    decreases layers.len(),
{
    if layers.len() > 0 {
        lemma_onion_len(layers.drop_first(), data);
    }
}

/// A layer can be put on before the others or after them.
proof fn lemma_layers_commute(layers: Seq<CipherView>, c: CipherView, data: Seq<u8>)
    ensures
        onion(layers, c.output(data)) == c.output(onion(layers, data)),
    decreases layers.len(),
{
    if layers.len() > 0 {
        let d = layers[0];
        let rest = onion(layers.drop_first(), data);
        lemma_layers_commute(layers.drop_first(), c, data);
        lemma_onion_len(layers.drop_first(), data);
        assert forall|i: int| 0 <= i < rest.len() implies #[trigger] d.output(c.output(rest))[i]
            == c.output(d.output(rest))[i] by {
            let x = rest[i];
            let k = crypto::aes256_ctr_keystream(c.key, (c.used + i) as nat);
            let l = crypto::aes256_ctr_keystream(d.key, (d.used + i) as nat);
            assert((x ^ k) ^ l == (x ^ l) ^ k) by (bit_vector);
        }
        assert(d.output(c.output(rest)) =~= c.output(d.output(rest)));
    }
}

/// Taking off all layers gives the data back.
pub proof fn law_onion_round_trip(layers: Seq<CipherView>, data: Seq<u8>)
    ensures
        onion(layers, onion(layers, data)) == data,
        onion(layers, data).len() == data.len(),
    decreases layers.len(),
{
    lemma_onion_len(layers, data);
    if layers.len() > 0 {
        let rest = layers.drop_first();
        let inner = onion(rest, data);
        law_onion_round_trip(rest, data);
        lemma_layers_commute(rest, layers[0], inner);
        crypto::law_cipher_round_trip(layers[0], data);
    }
}

/// The nearest hop takes off the outermost layer, and what is left are the layers of the others.
pub proof fn law_hops_peel_one_layer(layers: Seq<CipherView>, data: Seq<u8>)
    requires
        layers.len() > 0,
    ensures
        layers[0].output(onion(layers, data)) == onion(layers.drop_first(), data),
{
    crypto::law_cipher_round_trip(layers[0], onion(layers.drop_first(), data));
}

} // verus!
