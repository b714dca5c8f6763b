use vstd::prelude::*;
use vstd::string::*;

verus! {

/// One header of a saved HTTP response.
pub struct HttpHeader {
    pub name: String,
    pub value: String,
}

#[verifier::ext_equal]
pub ghost struct HeaderV {
    pub name: Seq<char>,
    pub value: Seq<char>,
}

impl View for HttpHeader {
    type V = HeaderV;

    open spec fn view(&self) -> HeaderV {
        HeaderV { name: self.name@, value: self.value@ }
    }
}

impl Clone for HttpHeader {
    fn clone(&self) -> (r: Self)
        ensures
            r@ == self@,
    {
        HttpHeader { name: self.name.clone(), value: self.value.clone() }
    }
}

/// The exact response representation the idempotency store replays:
/// status, headers and body.
pub struct HttpResponse {
    pub status: u16,
    pub headers: Vec<HttpHeader>,
    pub body: String,
}

#[verifier::ext_equal]
pub ghost struct ResponseV {
    pub status: u16,
    pub headers: Seq<HeaderV>,
    pub body: Seq<char>,
}

impl View for HttpResponse {
    type V = ResponseV;

    open spec fn view(&self) -> ResponseV {
        ResponseV {
            status: self.status,
            headers: self.headers@.map_values(|h: HttpHeader| h@),
            body: self.body@,
        }
    }
}

impl Clone for HttpResponse {
    fn clone(&self) -> (r: Self)
        ensures
            r@ == self@,
    {
        let mut headers: Vec<HttpHeader> = Vec::new();
        let mut i: usize = 0;
        while i < self.headers.len()
            invariant
                0 <= i <= self.headers@.len(),
                headers@.len() == i,
                forall|j: int| 0 <= j < i ==> headers@[j]@ == self.headers@[j]@,
            decreases self.headers@.len() - i,
        {
            headers.push(self.headers[i].clone());
            i += 1;
        }
        let r = HttpResponse { status: self.status, headers, body: self.body.clone() };
        assert(r@.headers =~= self@.headers);
        r
    }
}

/// Body of the acknowledgment returned once a publish is accepted.
pub open spec fn publish_ack_body() -> Seq<char> {
    "The newsletter issue has been published!"@
}

/// The acknowledgment response that a fresh, successful publish saves and
/// returns.
pub open spec fn publish_ack_view() -> ResponseV {
    ResponseV { status: 200, headers: Seq::empty(), body: publish_ack_body() }
}

/// Builds the publish acknowledgment.
pub fn make_publish_ack() -> (r: HttpResponse)
    ensures
        r@ == publish_ack_view(),
{
    let r = HttpResponse {
        status: 200,
        headers: Vec::new(),
        body: String::from_str("The newsletter issue has been published!"),
    };
    assert(r@.headers =~= publish_ack_view().headers);
    r
}

} // verus!
