//! The streaming verifier: checks an ed25519 signature over content that is
//! fed in bounded chunks, never holding the whole content.

use vstd::prelude::*;
use crate::text::push_bytes;

verus! {

/// Bytes in a public key.
pub const PUBLIC_KEY_LEN: usize = 32;

/// Bytes in a signature.
pub const SIGNATURE_LEN: usize = 64;

/// Bytes read from the binary at a time.
pub const CHUNK_SIZE: usize = 1024;

#[verifier::external_type_specification]
#[verifier::external_body]
pub struct ExVerifyingState(ed25519_compact::VerifyingState);

#[verifier::external_type_specification]
#[verifier::external_body]
pub struct ExEd25519Error(ed25519_compact::Error);

/// Whether ed25519 accepts `signature` as a signature of `message` by
/// `public_key`.
pub uninterp spec fn ed25519_accepts(public_key: Seq<u8>, message: Seq<u8>, signature: Seq<u8>) -> bool;

/// The bytes that a verification state has absorbed.
pub uninterp spec fn state_message(st: ed25519_compact::VerifyingState) -> Seq<u8>;

/// The public key that a verification state was made with.
pub uninterp spec fn state_key(st: ed25519_compact::VerifyingState) -> Seq<u8>;

/// The signature that a verification state was made with.
pub uninterp spec fn state_signature(st: ed25519_compact::VerifyingState) -> Seq<u8>;

/// Relies on ed25519_compact::PublicKey::verify_incremental: on success a
/// state bound to the key and signature that has absorbed nothing; an error
/// when the signature's scalar is not canonical or a point does not decode,
/// and then `PublicKey::verify`, which builds the same state first, accepts no
/// message.
#[verifier::external_body]
fn begin_verification(public_key: &[u8], signature: &[u8]) -> (r: Result<
    ed25519_compact::VerifyingState,
    ed25519_compact::Error,
>)
    requires
        public_key@.len() == PUBLIC_KEY_LEN,
        signature@.len() == SIGNATURE_LEN,
    ensures
        r matches Ok(st) ==> state_key(st) == public_key@ && state_signature(st) == signature@
            && state_message(st) == Seq::<u8>::empty(),
        r is Err ==> forall|m: Seq<u8>| !#[trigger] ed25519_accepts(public_key@, m, signature@),
{
    let mut pk = [0u8; 32];
    pk.copy_from_slice(public_key);
    let mut sig = [0u8; 64];
    sig.copy_from_slice(signature);
    ed25519_compact::PublicKey::new(pk).verify_incremental(&ed25519_compact::Signature::new(sig))
}

/// Relies on ed25519_compact::VerifyingState::absorb: appends the chunk to the
/// message being verified.
#[verifier::external_body]
fn absorb_chunk(st: &mut ed25519_compact::VerifyingState, chunk: &[u8])
    ensures
        state_message(*final(st)) == state_message(*old(st)) + chunk@,
        state_key(*final(st)) == state_key(*old(st)),
        state_signature(*final(st)) == state_signature(*old(st)),
{
    st.absorb(chunk)
}

/// Relies on ed25519_compact::VerifyingState::verify: `Ok` exactly when the
/// signature is valid for the absorbed message (`PublicKey::verify` is this
/// state absorbing the message whole).
#[verifier::external_body]
fn state_verdict(st: &ed25519_compact::VerifyingState) -> (r: bool)
    ensures
        r == ed25519_accepts(state_key(*st), state_message(*st), state_signature(*st)),
{
    st.verify().is_ok()
}

/// Relies on ed25519_compact::PublicKey::verify: `Ok` exactly when the
/// signature is valid for the message.
#[verifier::external_body]
fn accepts_whole(public_key: &[u8], message: &[u8], signature: &[u8]) -> (r: bool)
    requires
        public_key@.len() == PUBLIC_KEY_LEN,
        signature@.len() == SIGNATURE_LEN,
    ensures
        r == ed25519_accepts(public_key@, message@, signature@),
{
    let mut pk = [0u8; 32];
    pk.copy_from_slice(public_key);
    let mut sig = [0u8; 64];
    sig.copy_from_slice(signature);
    ed25519_compact::PublicKey::new(pk).verify(message, &ed25519_compact::Signature::new(sig)).is_ok()
}

/// Why verification could not start.
#[derive(Clone, Copy, Debug, PartialEq, Eq, Structural)]
pub enum LoadError {
    /// The public key does not have `PUBLIC_KEY_LEN` bytes.
    KeyLength,
    /// The signature does not have `SIGNATURE_LEN` bytes.
    SignatureLength,
    /// The key or signature is not a valid encoding.
    Malformed,
}

/// The final outcome of a run of the verifier.
#[derive(Clone, Copy, Debug, PartialEq, Eq, Structural)]
pub enum Outcome {
    Verified,
    Rejected,
    Fault,
}

/// Which error, if any, loading a key and signature of these lengths gives
/// before the key material is looked at.
pub open spec fn length_error(public_key: Seq<u8>, signature: Seq<u8>) -> Option<LoadError> {
    if public_key.len() != PUBLIC_KEY_LEN {
        Some(LoadError::KeyLength)
    } else if signature.len() != SIGNATURE_LEN {
        Some(LoadError::SignatureLength)
    } else {
        None
    }
}

/// A verification in progress, bound to one public key and one signature.
pub struct StreamVerifier {
    state: ed25519_compact::VerifyingState,
}

impl StreamVerifier {
    pub closed spec fn public_key(&self) -> Seq<u8> {
        state_key(self.state)
    }

    pub closed spec fn signature(&self) -> Seq<u8> {
        state_signature(self.state)
    }

    /// The content fed so far.
    pub closed spec fn message(&self) -> Seq<u8> {
        state_message(self.state)
    }

    /// Starts a verification. Wrong lengths are refused first; a key or
    /// signature that does not decode gives `Malformed`, and then no content
    /// would have been accepted.
    pub fn load(public_key: &[u8], signature: &[u8]) -> (r: Result<StreamVerifier, LoadError>)
        ensures
            length_error(public_key@, signature@) matches Some(e) ==> r == Err::<StreamVerifier, LoadError>(e),
            length_error(public_key@, signature@) is None ==> (r is Ok || r == Err::<StreamVerifier, LoadError>(LoadError::Malformed)),
            r matches Ok(v) ==> length_error(public_key@, signature@) is None
                && v.public_key() == public_key@ && v.signature() == signature@
                && v.message() == Seq::<u8>::empty(),
            r == Err::<StreamVerifier, LoadError>(LoadError::Malformed) ==> length_error(public_key@, signature@) is None
                && forall|m: Seq<u8>| !#[trigger] ed25519_accepts(public_key@, m, signature@),
    {
        if public_key.len() != PUBLIC_KEY_LEN {
            return Err(LoadError::KeyLength);
        }
        if signature.len() != SIGNATURE_LEN {
            return Err(LoadError::SignatureLength);
        }
        match begin_verification(public_key, signature) {
            Ok(state) => Ok(StreamVerifier { state }),
            Err(_) => Err(LoadError::Malformed),
        }
    }

    /// Feeds the next chunk of content.
    pub fn absorb(&mut self, chunk: &[u8])
        ensures
            final(self).message() == old(self).message() + chunk@,
            final(self).public_key() == old(self).public_key(),
            final(self).signature() == old(self).signature(),
    {
        absorb_chunk(&mut self.state, chunk)
    }

    /// Feeds one chunk that a read of up to `CHUNK_SIZE` bytes returned, and
    /// tells whether to read again: only a full chunk leaves more to read.
    pub fn feed(&mut self, chunk: &[u8]) -> (more: bool)
        ensures
            more == (chunk@.len() == CHUNK_SIZE),
            final(self).message() == old(self).message() + chunk@,
            final(self).public_key() == old(self).public_key(),
            final(self).signature() == old(self).signature(),
    {
        self.absorb(chunk);
        chunk.len() == CHUNK_SIZE
    }

    /// Whether the signature is valid for all the content fed.
    pub fn finish(&self) -> (r: Outcome)
        ensures
            r == (if ed25519_accepts(self.public_key(), self.message(), self.signature()) {
                Outcome::Verified
            } else {
                Outcome::Rejected
            }),
    {
        if state_verdict(&self.state) {
            Outcome::Verified
        } else {
            Outcome::Rejected
        }
    }
}

/// The outcome of a run that could not start: keys of the wrong length are
/// a rejection, key material that does not decode is a fault.
pub fn load_failure_outcome(e: LoadError) -> (r: Outcome)
    ensures
        r == (if e == LoadError::Malformed {
            Outcome::Fault
        } else {
            Outcome::Rejected
        }),
{
    match e {
        LoadError::KeyLength => Outcome::Rejected,
        LoadError::SignatureLength => Outcome::Rejected,
        LoadError::Malformed => Outcome::Fault,
    }
}

/// The process exit status of an outcome.
pub fn exit_code(o: Outcome) -> (r: i32)
    ensures
        r == (match o {
            Outcome::Verified => 0i32,
            Outcome::Rejected => 2i32,
            Outcome::Fault => 3i32,
        }),
{
    match o {
        Outcome::Verified => 0,
        Outcome::Rejected => 2,
        Outcome::Fault => 3,
    }
}

/// The chunks in which content of this length is read with reads of `size`
/// bytes: full chunks, then the one short (possibly empty) chunk that ends
/// the reading.
pub open spec fn chunked(content: Seq<u8>, size: nat) -> Seq<Seq<u8>>
    decreases content.len(),
{
    if size == 0 || content.len() < size {
        seq![content]
    } else {
        seq![content.take(size as int)] + chunked(content.skip(size as int), size)
    }
}

/// The chunks put back together.
pub open spec fn concat_chunks(cs: Seq<Seq<u8>>) -> Seq<u8>
    decreases cs.len(),
{
    if cs.len() == 0 {
        seq![]
    } else {
        cs[0] + concat_chunks(cs.drop_first())
    }
}

/// The verdict on content fed in chunks of `size` bytes.
pub open spec fn stream_verdict(
    public_key: Seq<u8>,
    signature: Seq<u8>,
    content: Seq<u8>,
    size: nat,
) -> bool {
    ed25519_accepts(public_key, concat_chunks(chunked(content, size)), signature)
}

proof fn lemma_chunks_rejoin(content: Seq<u8>, size: nat)
    ensures
        concat_chunks(chunked(content, size)) == content,
    decreases content.len(),
{
    if size == 0 || content.len() < size {
        assert(concat_chunks(seq![content]) == content + concat_chunks(seq![content].drop_first()));
        assert(seq![content].drop_first() =~= Seq::<Seq<u8>>::empty());
        assert(content + Seq::<u8>::empty() =~= content);
    } else {
        let cs = chunked(content, size);
        lemma_chunks_rejoin(content.skip(size as int), size);
        assert(cs.drop_first() =~= chunked(content.skip(size as int), size));
        assert(content.take(size as int) + content.skip(size as int) =~= content);
    }
}

/// The verdict is independent of the read size: for any two read sizes the
/// verdicts agree, and both equal the verdict on the content in one piece.
pub proof fn lemma_chunk_size_irrelevant(
    public_key: Seq<u8>,
    signature: Seq<u8>,
    content: Seq<u8>,
    size1: nat,
    size2: nat,
)
    ensures
        stream_verdict(public_key, signature, content, size1) == stream_verdict(
            public_key,
            signature,
            content,
            size2,
        ),
        stream_verdict(public_key, signature, content, size1) == ed25519_accepts(
            public_key,
            content,
            signature,
        ),
{
    lemma_chunks_rejoin(content, size1);
    lemma_chunks_rejoin(content, size2);
}

/// Verifies content held in memory by streaming it in chunks of `size`
/// bytes, as the verifier reads a file.
pub fn verify_chunked(public_key: &[u8], signature: &[u8], content: &[u8], size: usize) -> (r:
    Result<bool, LoadError>)
    requires
        size > 0,
    ensures
        length_error(public_key@, signature@) matches Some(e) ==> r == Err::<bool, LoadError>(e),
        length_error(public_key@, signature@) is None ==> (r is Ok || r == Err::<bool, LoadError>(LoadError::Malformed)),
        r matches Ok(b) ==> b == stream_verdict(public_key@, signature@, content@, size as nat),
        r == Err::<bool, LoadError>(LoadError::Malformed) ==> length_error(public_key@, signature@) is None
            && forall|m: Seq<u8>| !#[trigger] ed25519_accepts(public_key@, m, signature@),
{
    proof {
        lemma_chunk_size_irrelevant(public_key@, signature@, content@, size as nat, size as nat);
    }
    let mut v = match StreamVerifier::load(public_key, signature) {
        Ok(v) => v,
        Err(e) => {
            return Err(e);
        },
    };
    let mut pos: usize = 0;
    loop
        invariant
            pos <= content@.len(),
            size > 0,
            v.message() == content@.take(pos as int),
            v.public_key() == public_key@,
            v.signature() == signature@,
        ensures
            pos == content@.len(),
            v.message() == content@.take(pos as int),
            v.public_key() == public_key@,
            v.signature() == signature@,
        decreases content@.len() - pos,
    {
        let end: usize = if content.len() - pos >= size {
            pos + size
        } else {
            content.len()
        };
        v.absorb(&content[pos..end]);
        proof {
            assert(content@.take(pos as int) + content@.subrange(pos as int, end as int) =~= content@.take(end as int));
        }
        let full = end - pos == size;
        pos = end;
        if !full {
            break;
        }
    }
    proof {
        assert(content@.take(pos as int) =~= content@);
    }
    Ok(v.finish() == Outcome::Verified)
}

/// Verifies content held in memory in one pass.
pub fn verify_whole(public_key: &[u8], signature: &[u8], content: &[u8]) -> (r: Result<bool, LoadError>)
    ensures
        length_error(public_key@, signature@) matches Some(e) ==> r == Err::<bool, LoadError>(e),
        length_error(public_key@, signature@) is None ==> r == Ok::<bool, LoadError>(
            ed25519_accepts(public_key@, content@, signature@),
        ),
{
    if public_key.len() != PUBLIC_KEY_LEN {
        return Err(LoadError::KeyLength);
    }
    if signature.len() != SIGNATURE_LEN {
        return Err(LoadError::SignatureLength);
    }
    Ok(accepts_whole(public_key, content, signature))
}

/// The decimal digits of a number, in ASCII.
pub open spec fn decimal(n: nat) -> Seq<u8>
    decreases n,
{
    if n < 10 {
        seq![(48 + n) as u8]
    } else {
        decimal(n / 10) + seq![(48 + n % 10) as u8]
    }
}

/// Appends the decimal digits of a number.
pub fn push_decimal(out: &mut Vec<u8>, n: u32)
    ensures
        final(out)@ == old(out)@ + decimal(n as nat),
    decreases n,
{
    if n >= 10 {
        push_decimal(out, n / 10);
    }
    out.push(48u8 + (n % 10) as u8);
    proof {
        assert(final(out)@ =~= old(out)@ + decimal(n as nat));
    }
}

/// The report of an internal fault:
/// `Panicked at <line>:<column> in <file>\n`.
pub open spec fn fault_text(line: nat, column: nat, file: Seq<u8>) -> Seq<u8> {
    seq![80u8, 97, 110, 105, 99, 107, 101, 100, 32, 97, 116, 32] + decimal(line) + seq![58u8]
        + decimal(column) + seq![32u8, 105, 110, 32] + file + seq![10u8]
}

/// The report of an internal fault whose location is unknown: `Panicked\n`.
pub open spec fn unlocated_fault_text() -> Seq<u8> {
    seq![80u8, 97, 110, 105, 99, 107, 101, 100, 10]
}

/// The report that the verifier prints when it stops on an internal fault
/// whose location is unknown.
pub fn unlocated_fault_message() -> (r: Vec<u8>)
    ensures
        r@ == unlocated_fault_text(),
{
    let r: Vec<u8> = vec![80u8, 97, 110, 105, 99, 107, 101, 100, 10];
    proof {
        assert(r@ =~= unlocated_fault_text());
    }
    r
}

/// The report that the verifier prints when it stops on an internal fault.
pub fn fault_message(line: u32, column: u32, file: &[u8]) -> (r: Vec<u8>)
    ensures
        r@ == fault_text(line as nat, column as nat, file@),
{
    let mut out: Vec<u8> = Vec::new();
    out.push(80u8);
    out.push(97u8);
    out.push(110u8);
    out.push(105u8);
    out.push(99u8);
    out.push(107u8);
    out.push(101u8);
    out.push(100u8);
    out.push(32u8);
    out.push(97u8);
    out.push(116u8);
    out.push(32u8);
    push_decimal(&mut out, line);
    out.push(58u8);
    push_decimal(&mut out, column);
    out.push(32u8);
    out.push(105u8);
    out.push(110u8);
    out.push(32u8);
    push_bytes(&mut out, file);
    out.push(10u8);
    proof {
        assert(out@ =~= fault_text(line as nat, column as nat, file@));
    }
    out
}

} // verus!
