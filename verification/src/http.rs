//! The little HTTP that the servers speak: where a request ends, how it is
//! shown, and the one response.
use vstd::prelude::*;
use vstd::string::{is_ascii, is_ascii_spec_bytes, StringSliceAdditionalSpecFns};
use vstd::utf8::{decode_utf8, valid_utf8};

verus! {

/// Size of the buffer that a request is read into.
pub const CAPACITY: usize = 1024;

/// "Hello World" in HTTP.
pub const RESPONSE: &'static str =
    "HTTP/1.1 200 OK\r\nContent-Length: 12\nConnection: close\r\n\r\nHello world!";

/// The blank line that ends the head of a request: `\r\n\r\n`.
pub open spec fn blank_line() -> Seq<u8> {
    seq![13u8, 10u8, 13u8, 10u8]
}

/// The first `read` bytes of the buffer end with a blank line.
pub open spec fn ends_request(request: Seq<u8>, read: nat) -> bool {
    &&& 4 <= read <= request.len()
    &&& request.subrange(read - 4, read as int) == blank_line()
}

/// Did we reach the end of the request?
pub fn end_of_request(request: &[u8; CAPACITY], read: usize) -> (end: bool)
    ensures
        end == ends_request(request@, read as nat),
{
    if read < 4 || read > CAPACITY {
        return false;
    }
    let end = request[read - 4] == 13 && request[read - 3] == 10 && request[read - 2] == 13
        && request[read - 1] == 10;
    proof {
        let tail = request@.subrange(read - 4, read as int);
        if end {
            assert(tail =~= blank_line());
        } else {
            assert(tail[0] == request@[read - 4]);
            assert(tail[1] == request@[read - 3]);
            assert(tail[2] == request@[read - 2]);
            assert(tail[3] == request@[read - 1]);
        }
    }
    end
}

/// The bytes of the response.
pub open spec fn response_bytes() -> Seq<u8> {
    RESPONSE.spec_bytes()
}

/// The response, as it goes over the wire.
pub fn response() -> (bytes: &'static [u8])
    ensures
        bytes@ == response_bytes(),
{
    RESPONSE.as_bytes()
}

/// What `String::from_utf8_lossy` makes of the bytes.
pub uninterp spec fn lossy_text(bytes: Seq<u8>) -> Seq<char>;

/// Calls `String::from_utf8_lossy`. The text is a function of the bytes alone;
/// bytes that are valid UTF-8 come out as the characters that they encode.
#[verifier::external_body]
pub(crate) fn from_utf8_lossy(bytes: &[u8]) -> (text: String)
    ensures
        text@ == lossy_text(bytes@),
        valid_utf8(bytes@) ==> text@ == decode_utf8(bytes@),
{
    String::from_utf8_lossy(bytes).into_owned()
}

/// The response is a whole HTTP response. It is 69 bytes of ASCII, and the
/// body behind the blank line is as long as the two digits behind the name of
/// the header say.
pub proof fn response_is_whole()
    ensures
        response_bytes().len() == 69,
        response_bytes().take(17) == "HTTP/1.1 200 OK\r\n".spec_bytes(),
        response_bytes().skip(57) == "Hello world!".spec_bytes(),
        response_bytes().subrange(53, 57) == blank_line(),
        forall|i: int| 0 <= i < response_bytes().len() ==> #[trigger] response_bytes()[i] < 128,
        response_bytes().subrange(17, 33) == "Content-Length: ".spec_bytes(),
        0x30 <= response_bytes()[33] <= 0x39,
        0x30 <= response_bytes()[34] <= 0x39,
        response_bytes().skip(57).len() == 10 * (response_bytes()[33] - 0x30) + (
        response_bytes()[34] - 0x30),
        response_bytes().skip(57).len() == 12,
{
    reveal_strlit(
        "HTTP/1.1 200 OK\r\nContent-Length: 12\nConnection: close\r\n\r\nHello world!",
    );
    assert(is_ascii(RESPONSE));
    is_ascii_spec_bytes(RESPONSE);
    assert(response_bytes().subrange(53, 57) =~= blank_line());
    reveal_strlit("Content-Length: ");
    assert(is_ascii("Content-Length: "));
    is_ascii_spec_bytes("Content-Length: ");
    reveal_strlit("HTTP/1.1 200 OK\r\n");
    assert(is_ascii("HTTP/1.1 200 OK\r\n"));
    is_ascii_spec_bytes("HTTP/1.1 200 OK\r\n");
    assert(response_bytes().take(17) =~= "HTTP/1.1 200 OK\r\n".spec_bytes());
    reveal_strlit("Hello world!");
    assert(is_ascii("Hello world!"));
    is_ascii_spec_bytes("Hello world!");
    assert(response_bytes().skip(57) =~= "Hello world!".spec_bytes());
    assert(response_bytes().subrange(17, 33) =~= "Content-Length: ".spec_bytes());
}

/// A request ends where the last four of the bytes read are a carriage return, a line
/// feed, and both once more. What lies behind them in the buffer does not matter.
pub proof fn request_ends_with_its_last_bytes(request: Seq<u8>, read: nat)
    requires
        read <= request.len(),
    ensures
        ends_request(request, read) <==> {
            &&& read >= 4
            &&& request[read - 4] == 0x0d && request[read - 3] == 0x0a
            &&& request[read - 2] == 0x0d && request[read - 1] == 0x0a
        },
        ends_request(request, read) <==> blank_line().is_suffix_of(request.take(read as int)),
{
    if read >= 4 {
        let tail = request.subrange(read - 4, read as int);
        let head = request.take(read as int);
        assert(head.subrange(head.len() - 4, head.len() as int) =~= tail);
        assert(tail[0] == request[read - 4] && tail[1] == request[read - 3]);
        assert(tail[2] == request[read - 2] && tail[3] == request[read - 1]);
        if request[read - 4] == 0x0d && request[read - 3] == 0x0a && request[read - 2] == 0x0d
            && request[read - 1] == 0x0a {
            assert(tail =~= blank_line());
        }
    }
}

/// No request ends past the end of the buffer.
pub proof fn no_request_ends_past_the_buffer(request: Seq<u8>, read: nat)
    requires
        read > request.len(),
    ensures
        !ends_request(request, read),
{
}

} // verus!
