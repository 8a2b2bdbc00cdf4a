//! Requests to the camera: their URLs, and what becomes of the answers.

pub mod cgi;

use vstd::prelude::*;

use crate::bytes::{joined, lemma_joined_grows};

verus! {

/// Cap on the body of any single camera response (CGI XML or snapshot). A
/// JPEG snapshot of 2560x1440 takes a few megabytes.
pub const MAX_CAMERA_RESPONSE_BYTES: usize = 16_777_216;

/// Time limit for connecting to the camera, in seconds.
pub const CONNECT_TIMEOUT_SECS: u64 = 5;

/// Time limit for a whole exchange with the camera, in seconds.
pub const TOTAL_TIMEOUT_SECS: u64 = 15;

/// Why a response body is refused.
#[derive(Debug, Clone, Copy, PartialEq, Eq)]
pub enum BodyError {
    /// The announced length is over the cap.
    AnnouncedTooLarge(u64),
    /// The bytes that came are over the cap.
    TooLarge,
}

/// The body of a camera response, read chunk by chunk under the cap.
#[derive(Debug)]
pub struct CappedBody {
    bytes: Vec<u8>,
}

impl View for CappedBody {
    type V = Seq<u8>;

    closed spec fn view(&self) -> Seq<u8> {
        self.bytes@
    }
}

impl CappedBody {
    /// The body never holds more than the cap.
    #[verifier::type_invariant]
    spec fn wf(self) -> bool {
        self.bytes@.len() <= MAX_CAMERA_RESPONSE_BYTES
    }

    /// Starts the body of a response that announces `content_length` bytes, if
    /// it announces a length.
    pub fn start(content_length: Option<u64>) -> (r: Result<CappedBody, BodyError>)
        ensures
            match r {
                Ok(body) => body@ == Seq::<u8>::empty() && (content_length matches Some(n) ==> n
                    <= MAX_CAMERA_RESPONSE_BYTES),
                Err(e) => content_length matches Some(n) && n > MAX_CAMERA_RESPONSE_BYTES && e
                    == BodyError::AnnouncedTooLarge(n),
            },
    {
        if let Some(n) = content_length {
            if n > MAX_CAMERA_RESPONSE_BYTES as u64 {
                return Err(BodyError::AnnouncedTooLarge(n));
            }
        }
        Ok(CappedBody { bytes: Vec::new() })
    }

    /// Takes the next chunk of the body: the body grows by it, or is refused
    /// if it would grow over the cap.
    pub fn push(self, chunk: &[u8]) -> (r: Result<CappedBody, BodyError>)
        ensures
            match r {
                Ok(body) => body@ == self@ + chunk@ && body@.len() <= MAX_CAMERA_RESPONSE_BYTES,
                Err(e) => self@.len() + chunk@.len() > MAX_CAMERA_RESPONSE_BYTES && e
                    == BodyError::TooLarge,
            },
    {
        proof {
            use_type_invariant(&self);
        }
        let mut bytes = self.bytes;
        if chunk.len() > MAX_CAMERA_RESPONSE_BYTES - bytes.len() {
            return Err(BodyError::TooLarge);
        }
        bytes.extend_from_slice(chunk);
        Ok(CappedBody { bytes })
    }

    /// The bytes of the body.
    pub fn finish(self) -> (r: Vec<u8>)
        ensures
            r@ == self@,
            r@.len() <= MAX_CAMERA_RESPONSE_BYTES,
    {
        proof {
            use_type_invariant(&self);
        }
        self.bytes
    }
}

/// Reads a whole body from its chunks.
pub fn read_capped(content_length: Option<u64>, chunks: &Vec<Vec<u8>>) -> (r: Result<
    Vec<u8>,
    BodyError,
>)
    ensures
        match r {
            Ok(body) => body@ == joined(chunks@.map_values(|c: Vec<u8>| c@)) && body@.len()
                <= MAX_CAMERA_RESPONSE_BYTES && !(content_length matches Some(n) && n
                > MAX_CAMERA_RESPONSE_BYTES),
            Err(BodyError::AnnouncedTooLarge(n)) => content_length == Some(n) && n
                > MAX_CAMERA_RESPONSE_BYTES,
            Err(BodyError::TooLarge) => !(content_length matches Some(n) && n
                > MAX_CAMERA_RESPONSE_BYTES) && joined(
                chunks@.map_values(|c: Vec<u8>| c@),
            ).len() > MAX_CAMERA_RESPONSE_BYTES,
        },
        r is Ok <==> !(content_length matches Some(n) && n > 16_777_216) && joined(
            chunks@.map_values(|c: Vec<u8>| c@),
        ).len() <= 16_777_216,
{
    let mut body = CappedBody::start(content_length)?;
    let ghost all = chunks@.map_values(|c: Vec<u8>| c@);
    let mut i: usize = 0;
    while i < chunks.len()
        invariant
            i <= chunks@.len(),
            all == chunks@.map_values(|c: Vec<u8>| c@),
            body@ == joined(all.take(i as int)),
            !(content_length matches Some(n) && n > MAX_CAMERA_RESPONSE_BYTES),
        decreases chunks@.len() - i,
    {
        proof {
            assert(all.take(i + 1).drop_last() == all.take(i as int));
            lemma_joined_grows(all, i + 1);
        }
        body = body.push(chunks[i].as_slice())?;
        i += 1;
    }
    assert(all.take(i as int) == all);
    Ok(body.finish())
}

} // verus!
