//! Responses as they are kept for replay, and the shape they take as a stored row.

use vstd::prelude::*;

verus! {

/// A header of a response: its name and the raw bytes of its value.
#[derive(Debug, PartialEq, Eq)]
pub struct HeaderPairRecord {
    pub name: String,
    pub value: Vec<u8>,
}

/// What a [`HeaderPairRecord`] holds.
pub struct HeaderPairView {
    pub name: Seq<char>,
    pub value: Seq<u8>,
}

impl View for HeaderPairRecord {
    type V = HeaderPairView;

    open spec fn view(&self) -> HeaderPairView {
        HeaderPairView { name: self.name@, value: self.value@ }
    }
}

impl Clone for HeaderPairRecord {
    fn clone(&self) -> (copy: Self)
        ensures
            copy@ == self@,
    {
        HeaderPairRecord { name: self.name.clone(), value: copy_bytes(&self.value) }
    }
}

/// What a list of headers holds: duplicates and order count.
pub open spec fn headers_view(headers: Seq<HeaderPairRecord>) -> Seq<HeaderPairView> {
    headers.map_values(|h: HeaderPairRecord| h@)
}

/// A copy of `bytes`.
pub fn copy_bytes(bytes: &Vec<u8>) -> (copy: Vec<u8>)
    ensures
        copy@ == bytes@,
{
    let mut copy: Vec<u8> = Vec::new();
    let mut i: usize = 0;
    while i < bytes.len()
        invariant
            i <= bytes.len(),
            copy@ == bytes@.subrange(0, i as int),
        decreases bytes.len() - i,
    {
        copy.push(bytes[i]);
        i += 1;
        assert(copy@ =~= bytes@.subrange(0, i as int));
    }
    assert(bytes@.subrange(0, bytes.len() as int) =~= bytes@);
    copy
}

/// A copy of `headers`, element by element and in order.
pub fn copy_headers(headers: &Vec<HeaderPairRecord>) -> (copy: Vec<HeaderPairRecord>)
    ensures
        headers_view(copy@) == headers_view(headers@),
{
    let mut copy: Vec<HeaderPairRecord> = Vec::new();
    let mut i: usize = 0;
    while i < headers.len()
        invariant
            i <= headers.len(),
            copy@.len() == i,
            forall|k: int| 0 <= k < i ==> (#[trigger] copy@[k])@ == headers@[k]@,
        decreases headers.len() - i,
    {
        copy.push(headers[i].clone());
        i += 1;
    }
    assert(headers_view(copy@) =~= headers_view(headers@));
    copy
}

/// Whether `code` can be the status of a response: three digits, not starting
/// with zero.
pub open spec fn is_status_code(code: int) -> bool {
    100 <= code < 1000
}

/// What a [`SavedResponse`] holds.
pub struct ResponseView {
    pub status_code: u16,
    pub headers: Seq<HeaderPairView>,
    pub body: Seq<u8>,
}

/// A stored response as its row holds it: the status as a signed 16-bit
/// number, the headers one by one, the body.
#[derive(Debug, PartialEq, Eq)]
pub struct ResponseRow {
    pub response_status_code: i16,
    pub response_headers: Vec<HeaderPairRecord>,
    pub response_body: Vec<u8>,
}

/// What a [`ResponseRow`] holds.
pub struct ResponseRowView {
    pub response_status_code: i16,
    pub response_headers: Seq<HeaderPairView>,
    pub response_body: Seq<u8>,
}

impl View for ResponseRow {
    type V = ResponseRowView;

    open spec fn view(&self) -> ResponseRowView {
        ResponseRowView {
            response_status_code: self.response_status_code,
            response_headers: headers_view(self.response_headers@),
            response_body: self.response_body@,
        }
    }
}

impl ResponseView {
    /// The row that stores this response.
    pub open spec fn to_row(self) -> ResponseRowView {
        ResponseRowView {
            response_status_code: self.status_code as i16,
            response_headers: self.headers,
            response_body: self.body,
        }
    }
}

impl ResponseRowView {
    /// The response that this row stores, if its status is one.
    pub open spec fn to_response(self) -> Option<ResponseView> {
        if is_status_code(self.response_status_code as int) {
            Some(
                ResponseView {
                    status_code: self.response_status_code as u16,
                    headers: self.response_headers,
                    body: self.response_body,
                },
            )
        } else {
            None
        }
    }
}

/// A row was read whose status is no status of a response.
#[derive(Debug, Clone, Copy, PartialEq, Eq, Structural)]
pub struct InvalidStatusCode(pub i16);

/// A response kept for replay: status, headers in order, body.
#[derive(Debug, PartialEq, Eq)]
pub struct SavedResponse {
    status_code: u16,
    headers: Vec<HeaderPairRecord>,
    body: Vec<u8>,
}

impl View for SavedResponse {
    type V = ResponseView;

    closed spec fn view(&self) -> ResponseView {
        ResponseView {
            status_code: self.status_code,
            headers: headers_view(self.headers@),
            body: self.body@,
        }
    }
}

impl Clone for SavedResponse {
    fn clone(&self) -> (copy: Self)
        ensures
            copy@ == self@,
    {
        proof {
            use_type_invariant(self);
        }
        SavedResponse {
            status_code: self.status_code,
            headers: copy_headers(&self.headers),
            body: copy_bytes(&self.body),
        }
    }
}

impl SavedResponse {
    #[verifier::type_invariant]
    spec fn well_formed(self) -> bool {
        is_status_code(self.status_code as int)
    }

    /// A response with this status, no header and an empty body; nothing if
    /// `status_code` is no status.
    pub fn build(status_code: u16) -> (response: Option<SavedResponse>)
        ensures
            response is Some <==> is_status_code(status_code as int),
            response is Some ==> response->0@ == (ResponseView {
                status_code,
                headers: Seq::empty(),
                body: Seq::empty(),
            }),
    {
        if 100 <= status_code && status_code < 1000 {
            let response = SavedResponse { status_code, headers: Vec::new(), body: Vec::new() };
            assert(response@.headers =~= Seq::empty());
            Some(response)
        } else {
            None
        }
    }

    /// Adds a header after those already there.
    pub fn append_header(self, name: String, value: Vec<u8>) -> (response: SavedResponse)
        ensures
            response@ == (ResponseView {
                headers: self@.headers.push(HeaderPairView { name: name@, value: value@ }),
                ..self@
            }),
    {
        proof {
            use_type_invariant(&self);
        }
        let mut headers = self.headers;
        headers.push(HeaderPairRecord { name, value });
        let response = SavedResponse { status_code: self.status_code, headers, body: self.body };
        assert(response@.headers =~= self@.headers.push(
            HeaderPairView { name: name@, value: value@ },
        ));
        response
    }

    /// Replaces the body.
    pub fn body(self, body: Vec<u8>) -> (response: SavedResponse)
        ensures
            response@ == (ResponseView { body: body@, ..self@ }),
    {
        proof {
            use_type_invariant(&self);
        }
        SavedResponse { status_code: self.status_code, headers: self.headers, body }
    }

    /// The status; it is always a status of a response.
    pub fn status_code(&self) -> (code: u16)
        ensures
            code == self@.status_code,
            is_status_code(code as int),
    {
        proof {
            use_type_invariant(self);
        }
        self.status_code
    }

    /// The headers, in the order in which they were appended.
    pub fn headers(&self) -> (headers: &Vec<HeaderPairRecord>)
        ensures
            headers_view(headers@) == self@.headers,
    {
        &self.headers
    }

    /// The bytes of the body.
    pub fn body_bytes(&self) -> (body: &Vec<u8>)
        ensures
            body@ == self@.body,
    {
        &self.body
    }

    /// Rebuilds a response from its row. A row whose status is no status of
    /// a response is refused with that number.
    pub fn from_row(row: ResponseRow) -> (result: Result<SavedResponse, InvalidStatusCode>)
        ensures
            match row@.to_response() {
                Some(response) => result is Ok && result->Ok_0@ == response,
                None => result == Err::<SavedResponse, _>(
                    InvalidStatusCode(row.response_status_code),
                ),
            },
    {
        if 100 <= row.response_status_code && row.response_status_code < 1000 {
            Ok(
                SavedResponse {
                    status_code: row.response_status_code as u16,
                    headers: row.response_headers,
                    body: row.response_body,
                },
            )
        } else {
            Err(InvalidStatusCode(row.response_status_code))
        }
    }

    /// The row that stores this response, header by header.
    pub fn to_row(&self) -> (row: ResponseRow)
        ensures
            row@ == self@.to_row(),
            row@.to_response() == Some(self@),
    {
        proof {
            use_type_invariant(self);
        }
        ResponseRow {
            response_status_code: self.status_code as i16,
            response_headers: copy_headers(&self.headers),
            response_body: copy_bytes(&self.body),
        }
    }
}

/// A response read back from the row it was stored in is the response that
/// was stored.
pub proof fn lemma_row_round_trip(response: ResponseView)
    requires
        is_status_code(response.status_code as int),
    ensures
        response.to_row().to_response() == Some(response),
{
}

} // verus!
