use crate::header::{ascii_bytes, header_values, insert_header};
use crate::service::ServiceResponse;
use vstd::prelude::*;

verus! {

/// Headers in which the content type is `0001` and the rest is as it was.
pub open spec fn labelled(headers: Map<Seq<char>, Seq<Seq<u8>>>) -> Map<Seq<char>, Seq<Seq<u8>>> {
    headers.insert("content-type"@, seq![ascii_bytes("0001"@)])
}

/// Labels a response: whatever its content type was, it becomes `0001`. The rest of the
/// response stays as it is.
pub fn label_response<B>(res: ServiceResponse<B>) -> (out: ServiceResponse<B>)
    ensures
        header_values(out.headers) == labelled(header_values(res.headers)),
        out.request == res.request,
        out.status == res.status,
        out.body == res.body,
{
    proof {
        reveal_strlit("content-type");
        reveal_strlit("0001");
    }
    let mut headers = res.headers;
    insert_header(&mut headers, "content-type", "0001");
    ServiceResponse { request: res.request, status: res.status, headers, body: res.body }
}

} // verus!
