//! Requests and responses as the node sees them, after the transport has
//! taken a raw request apart.

use vstd::hash_map::StringHashMap;
use vstd::prelude::*;

verus! {

/// A request: method, path, query parameters, header lines and body.
pub struct HttpRequest {
    pub method: String,
    pub path: String,
    pub params: StringHashMap<String>,
    pub headers: Vec<String>,
    pub body: String,
}

/// A response: status text, header lines and body.
#[derive(Debug)]
pub struct HttpResponse {
    pub status: String,
    pub headers: Vec<String>,
    pub body: String,
}

/// The parameters that a list of name and value pairs defines: where a name
/// occurs more than once, its last value counts.
pub open spec fn param_map(pairs: Seq<(String, String)>) -> Map<Seq<char>, String>
    decreases pairs.len(),
{
    if pairs.len() == 0 {
        Map::empty()
    } else {
        param_map(pairs.drop_last()).insert(pairs.last().0@, pairs.last().1)
    }
}

/// The parts with `separator` between each two neighbours.
pub open spec fn joined(parts: Seq<String>, separator: Seq<char>) -> Seq<char>
    decreases parts.len(),
{
    if parts.len() == 0 {
        Seq::empty()
    } else if parts.len() == 1 {
        parts[0]@
    } else {
        joined(parts.drop_last(), separator) + separator + parts.last()@
    }
}

/// Calls `str::starts_with` with a string pattern: whether `s` begins with
/// `prefix`.
#[verifier::external_body]
pub(crate) fn starts_with(s: &str, prefix: &str) -> (r: bool)
    ensures
        r == prefix@.is_prefix_of(s@),
{
    s.starts_with(prefix)
}

impl HttpRequest {
    /// Makes a request. The parameters are given as pairs of name and value,
    /// in the order in which they were read.
    pub fn new(
        method: String,
        path: String,
        params: Vec<(String, String)>,
        headers: Vec<String>,
        body: String,
    ) -> (req: HttpRequest)
        ensures
            req.method == method,
            req.path == path,
            req.params@ == param_map(params@),
            req.headers == headers,
            req.body == body,
    {
        let mut map: StringHashMap<String> = StringHashMap::new();
        let ghost all = params@;
        assert(all.take(0) =~= Seq::<(String, String)>::empty());
        for pair in it: params
            invariant
                it.seq() == all,
                map@ == param_map(all.take(it.index() as int)),
        {
            proof {
                let grown = all.take(it.index() + 1);
                assert(grown.drop_last() =~= all.take(it.index() as int));
                assert(grown.last() == pair);
            }
            let (name, value) = pair;
            map.insert(name, value);
        }
        assert(all.take(all.len() as int) =~= all);
        HttpRequest { method, path, params: map, headers, body }
    }

    /// The value of a query parameter, if the request has it.
    pub fn param(&self, name: &str) -> (value: Option<&String>)
        ensures
            match value {
                Some(v) => self.params@.contains_key(name@) && *v == self.params@[name@],
                None => !self.params@.contains_key(name@),
            },
    {
        self.params.get(name)
    }
}

impl HttpResponse {
    /// Makes a response.
    pub fn new(status: String, headers: Vec<String>, body: String) -> (res: HttpResponse)
        ensures
            res.status == status,
            res.headers == headers,
            res.body == body,
    {
        HttpResponse { status, headers, body }
    }

    /// The response as it goes over the wire.
    pub open spec fn text(&self) -> Seq<char> {
        "HTTP/1.1 "@ + self.status@ + "\r\n"@ + joined(self.headers@, "\r\n"@) + "\r\n"@
            + self.body@
    }

    /// Writes the response as it goes over the wire: the status line, the
    /// header lines, and the body.
    pub fn to_string(&self) -> (r: String)
        ensures
            r@ == self.text(),
    {
        let mut out = String::from_str("HTTP/1.1 ");
        out.append(self.status.as_str());
        out.append("\r\n");
        let ghost head = out@;
        let mut i: usize = 0;
        assert(self.headers@.take(0) =~= Seq::<String>::empty());
        while i < self.headers.len()
            invariant
                i <= self.headers.len(),
                head == "HTTP/1.1 "@ + self.status@ + "\r\n"@,
                out@ == head + joined(self.headers@.take(i as int), "\r\n"@),
            decreases self.headers.len() - i,
        {
            proof {
                let grown = self.headers@.take(i + 1);
                assert(grown.drop_last() =~= self.headers@.take(i as int));
                assert(grown.last() == self.headers@[i as int]);
                if i == 1 {
                    assert(self.headers@.take(1)[0] == self.headers@[0]);
                }
            }
            if i > 0 {
                out.append("\r\n");
            }
            out.append(self.headers[i].as_str());
            proof {
                let before = self.headers@.take(i as int);
                let grown = self.headers@.take(i + 1);
                if i == 0 {
                    assert(joined(before, "\r\n"@) =~= Seq::<char>::empty());
                    assert(grown[0] == self.headers@[0]);
                    assert(out@ =~= head + joined(grown, "\r\n"@));
                } else {
                    assert(out@ =~= head + joined(grown, "\r\n"@));
                }
            }
            i = i + 1;
        }
        assert(self.headers@.take(i as int) =~= self.headers@);
        out.append("\r\n");
        out.append(self.body.as_str());
        assert(out@ =~= self.text());
        out
    }
}

} // verus!
