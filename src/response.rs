use vstd::prelude::*;
use vstd::string::*;

verus! {

/// The canonical reason phrase of a status code.
pub open spec fn reason_of(code: u16) -> Seq<char> {
    match code {
        100 => "Continue"@,
        101 => "Switching Protocols"@,
        200 => "OK"@,
        201 => "Created"@,
        202 => "Accepted"@,
        203 => "Non-Authoritative Information"@,
        204 => "No Content"@,
        205 => "Reset Content"@,
        206 => "Partial Content"@,
        300 => "Multiple Choices"@,
        301 => "Moved Permanently"@,
        302 => "Found"@,
        303 => "See Other"@,
        304 => "Not Modified"@,
        305 => "Use Proxy"@,
        307 => "Temporary Redirect"@,
        308 => "Permanent Redirect"@,
        400 => "Bad Request"@,
        401 => "Unauthorized"@,
        402 => "Payment Required"@,
        403 => "Forbidden"@,
        404 => "Not Found"@,
        405 => "Method Not Allowed"@,
        406 => "Not Acceptable"@,
        407 => "Proxy Authentication Required"@,
        408 => "Request Timeout"@,
        409 => "Conflict"@,
        410 => "Gone"@,
        411 => "Length Required"@,
        412 => "Precondition Failed"@,
        413 => "Payload Too Large"@,
        414 => "URI Too Long"@,
        415 => "Unsupported Media Type"@,
        416 => "Range Not Satisfiable"@,
        417 => "Expectation Failed"@,
        426 => "Upgrade Required"@,
        429 => "Too Many Requests"@,
        500 => "Internal Server Error"@,
        501 => "Not Implemented"@,
        502 => "Bad Gateway"@,
        503 => "Service Unavailable"@,
        504 => "Gateway Timeout"@,
        505 => "HTTP Version Not Supported"@,
        _ => "Unknown"@,
    }
}

/// A status code.
#[derive(PartialEq, Eq, Structural, Clone, Copy, Debug)]
pub struct StatusCode(pub u16);

impl StatusCode {
    pub fn default_reason_phrase(&self) -> (r: &'static str)
        ensures
            r@ == reason_of(self.0),
    {
        match self.0 {
            100 => "Continue",
            101 => "Switching Protocols",
            200 => "OK",
            201 => "Created",
            202 => "Accepted",
            203 => "Non-Authoritative Information",
            204 => "No Content",
            205 => "Reset Content",
            206 => "Partial Content",
            300 => "Multiple Choices",
            301 => "Moved Permanently",
            302 => "Found",
            303 => "See Other",
            304 => "Not Modified",
            305 => "Use Proxy",
            307 => "Temporary Redirect",
            308 => "Permanent Redirect",
            400 => "Bad Request",
            401 => "Unauthorized",
            402 => "Payment Required",
            403 => "Forbidden",
            404 => "Not Found",
            405 => "Method Not Allowed",
            406 => "Not Acceptable",
            407 => "Proxy Authentication Required",
            408 => "Request Timeout",
            409 => "Conflict",
            410 => "Gone",
            411 => "Length Required",
            412 => "Precondition Failed",
            413 => "Payload Too Large",
            414 => "URI Too Long",
            415 => "Unsupported Media Type",
            416 => "Range Not Satisfiable",
            417 => "Expectation Failed",
            426 => "Upgrade Required",
            429 => "Too Many Requests",
            500 => "Internal Server Error",
            501 => "Not Implemented",
            502 => "Bad Gateway",
            503 => "Service Unavailable",
            504 => "Gateway Timeout",
            505 => "HTTP Version Not Supported",
            _ => "Unknown",
        }
    }
}

/// A response built by the application, waiting to be encoded.
pub struct Response {
    pub status_code: StatusCode,
    pub headers: Vec<(String, String)>,
    pub data_length: Option<usize>,
    pub data: Vec<u8>,
}

impl Response {
    /// A response with status `code`, no headers and no body.
    pub fn empty(code: u16) -> (r: Response)
        ensures
            r.status_code.0 == code,
            r.headers@.len() == 0,
            r.data_length is None,
            r.data@.len() == 0,
    {
        Response { status_code: StatusCode(code), headers: Vec::new(), data_length: None, data: Vec::new() }
    }

    pub fn status(&mut self, code: u16)
        ensures
            final(self).status_code.0 == code,
            final(self).headers@ == old(self).headers@,
            final(self).data_length == old(self).data_length,
            final(self).data@ == old(self).data@,
    {
        self.status_code = StatusCode(code);
    }

    /// Adds a header; it is written after those added before.
    pub fn header(&mut self, name: String, value: String)
        ensures
            final(self).status_code == old(self).status_code,
            final(self).headers@ == old(self).headers@.push((name, value)),
            final(self).data_length == old(self).data_length,
            final(self).data@ == old(self).data@,
    {
        self.headers.push((name, value));
    }

    /// Sets the body to the bytes `data` and declares its length.
    pub fn from_bytes(&mut self, data: Vec<u8>)
        ensures
            final(self).status_code == old(self).status_code,
            final(self).headers@ == old(self).headers@,
            final(self).data_length == Some(data@.len() as usize),
            final(self).data@ == data@,
    {
        self.data_length = Some(data.len());
        self.data = data;
    }

    /// Sets the body to the UTF-8 bytes of `text` and declares its length.
    pub fn from_text(&mut self, text: &str)
        ensures
            final(self).status_code == old(self).status_code,
            final(self).headers@ == old(self).headers@,
            final(self).data_length == Some(text.spec_bytes().len() as usize),
            final(self).data@ == text.spec_bytes(),
    {
        let mut data: Vec<u8> = Vec::new();
        data.extend_from_slice(text.as_bytes());
        self.from_bytes(data);
    }
}

} // verus!
