//! The listener of the web interface: each connection is either served there or
//! handed on to the routing proxy, by the host that it asks for.
use vstd::prelude::*;
use vstd::slice::*;
use vstd::string::*;

use crate::text;
use crate::text::{after, before, char_texts, lines, lower, texts, trim};

verus! {

/// How much of a request is looked at for its host.
pub const PEEK_CAP: usize = 16384;

/// What came of looking at more of a request.
#[derive(Debug)]
pub enum Peek {
    /// The client has closed the connection.
    Closed,
    /// Reading has failed.
    Failed,
    /// Nothing came in time.
    TimedOut,
    /// The host was found.
    Found(String),
    /// The head of the request is not complete.
    Incomplete,
    /// There is no host.
    NotFound,
}

/// What to do with a connection.
#[derive(Debug)]
pub enum PeekStep {
    /// Look at more of the request.
    ReadOn,
    /// Close the connection.
    Drop,
    /// Dispatch it by its host.
    Dispatch(Option<String>),
}

/// The host of an address: without the port, and without the brackets of an IPv6
/// address.
pub open spec fn without_port(address: Seq<char>) -> Seq<char> {
    if address.len() > 0 && address[0] == '[' {
        before(address.skip(1), ']')
    } else {
        before(address, ':')
    }
}

/// The host that one line of a request's head names, in lower case.
pub open spec fn line_host(line: Seq<char>) -> Option<Seq<char>> {
    match after(line, ':') {
        Some(value) => {
            let host = lower(without_port(trim(value)));
            if lower(before(line, ':')) == "host"@ && host.len() > 0 {
                Some(host)
            } else {
                None
            }
        },
        None => None,
    }
}

/// The host that the first line to name one names, of the lines up to an empty one.
pub open spec fn first_host(ls: Seq<Seq<char>>) -> Option<Seq<char>>
    decreases ls.len(),
{
    if ls.len() == 0 || ls[0].len() == 0 {
        None
    } else {
        match line_host(ls[0]) {
            Some(h) => Some(h),
            None => first_host(ls.skip(1)),
        }
    }
}

/// An empty line follows the first line of the request: its head has ended.
pub open spec fn head_ended(ls: Seq<Seq<char>>) -> bool {
    exists|i: int| 1 <= i < ls.len() && (#[trigger] ls[i]).len() == 0
}

fn cut_port<'a>(address: &'a [char]) -> (r: &'a [char])
    ensures
        r@ == without_port(address@),
{
    if address.len() > 0 && address[0] == '[' {
        let rest = slice_subrange(address, 1, address.len());
        assert(rest@ =~= address@.skip(1));
        text::part_before(rest, ']')
    } else {
        text::part_before(address, ':')
    }
}

fn host_in_line(line: &[char]) -> (r: Option<String>)
    ensures
        match r {
            Some(h) => line_host(line@) == Some(h@),
            None => line_host(line@) is None,
        },
{
    match text::part_after(line, ':') {
        Some(value) => {
            let name = text::to_lower(text::part_before(line, ':'));
            let host = text::to_lower(cut_port(text::trimmed(value)));
            if text::is_text(name.as_slice(), "host") && host.len() > 0 {
                Some(text::string_of(host.as_slice()))
            } else {
                None
            }
        },
        None => None,
    }
}

/// Looks for the host in the start of a request, of which the first line is no header.
pub fn parse_http_host(request: &str) -> (r: Peek)
    ensures
        match r {
            Peek::Found(h) => head_ended(lines(request@)) && first_host(lines(request@).skip(1)) == Some(h@),
            Peek::NotFound => head_ended(lines(request@)) && first_host(lines(request@).skip(1)) is None,
            Peek::Incomplete => !head_ended(lines(request@)),
            _ => false,
        },
{
    let ghost ls = lines(request@);
    let cs = text::chars_of(request);
    let v = text::split_lines(cs.as_slice());
    let mut found: Option<String> = None;
    let mut i: usize = 1;
    while i < v.len()
        invariant
            1 <= i,
            v@.len() == 0 || i <= v@.len(),
            ls == lines(request@),
            char_texts(v@) == ls,
            forall|j: int| 1 <= j < i && j < ls.len() ==> (#[trigger] ls[j]).len() > 0,
            match found {
                Some(h) => first_host(ls.skip(1)) == Some(h@),
                None => first_host(ls.skip(1)) == first_host(ls.skip(i as int)),
            },
        decreases v@.len() - i,
    {
        assert(ls[i as int] == v@[i as int]@);
        assert(ls.skip(i as int)[0] == ls[i as int]);
        assert(ls.skip(i as int).skip(1) =~= ls.skip(i as int + 1));
        if v[i].len() == 0 {
            return match found {
                Some(h) => Peek::Found(h),
                None => Peek::NotFound,
            };
        }
        if found.is_none() {
            found = host_in_line(v[i].as_slice());
        }
        i = i + 1;
    }
    Peek::Incomplete
}

/// Decides whether enough of a request was seen, with `buffered` bytes of it.
pub fn peeked(p: Peek, buffered: usize) -> (r: PeekStep)
    ensures
        match p {
            Peek::Failed => r is Drop,
            Peek::Found(h) => r == PeekStep::Dispatch(Some(h)),
            Peek::Incomplete => if buffered > PEEK_CAP {
                r == PeekStep::Dispatch(None)
            } else {
                r is ReadOn
            },
            _ => r == PeekStep::Dispatch(None),
        },
{
    match p {
        Peek::Failed => PeekStep::Drop,
        Peek::Found(h) => PeekStep::Dispatch(Some(h)),
        Peek::Incomplete => if buffered > PEEK_CAP {
            PeekStep::Dispatch(None)
        } else {
            PeekStep::ReadOn
        },
        _ => PeekStep::Dispatch(None),
    }
}

/// Who serves a connection.
#[derive(Debug, Clone, Copy, PartialEq, Eq, Structural)]
pub enum Route {
    Panel,
    Proxy,
}

/// The proxy serves hosts that are not those of the web interface, if it is on. The
/// web interface serves everything else.
pub fn route(host: &Option<String>, proxy_enabled: bool, panel_hosts: &Vec<String>) -> (r: Route)
    ensures
        r == (match host {
            Some(h) => if proxy_enabled && !texts(panel_hosts@).contains(h@) {
                Route::Proxy
            } else {
                Route::Panel
            },
            None => Route::Panel,
        }),
{
    match host {
        Some(h) => if proxy_enabled && !holds(panel_hosts, h.as_str()) {
            Route::Proxy
        } else {
            Route::Panel
        },
        None => Route::Panel,
    }
}

fn holds(hosts: &Vec<String>, host: &str) -> (r: bool)
    ensures
        r == texts(hosts@).contains(host@),
{
    let ghost t = texts(hosts@);
    let mut i: usize = 0;
    while i < hosts.len()
        invariant
            i <= hosts@.len(),
            t == texts(hosts@),
            forall|j: int| 0 <= j < i ==> #[trigger] t[j] != host@,
        decreases hosts@.len() - i,
    {
        assert(t[i as int] == hosts@[i as int]@);
        if text::str_same(hosts[i].as_str(), host) {
            return true;
        }
        i = i + 1;
    }
    false
}

/// Bytes that were already read, to be read again before anything else.
#[derive(Debug)]
pub struct Prefixed {
    prefix: Vec<u8>,
    pos: usize,
}

impl Prefixed {
    /// The bytes that are still to be read again.
    pub closed spec fn rest(&self) -> Seq<u8> {
        self.prefix@.skip(self.pos as int)
    }

    /// The reading position is inside the bytes.
    pub closed spec fn wf(&self) -> bool {
        self.pos <= self.prefix@.len()
    }

    /// All bytes are to be read again.
    pub fn new(prefix: Vec<u8>) -> (r: Prefixed)
        ensures
            r.wf(),
            r.rest() == prefix@,
    {
        let r = Prefixed { prefix, pos: 0 };
        assert(r.rest() =~= prefix@);
        r
    }

    /// The next bytes, as many as there is room for; none once all were read.
    pub fn read(&mut self, room: usize) -> (r: Option<Vec<u8>>)
        requires
            old(self).wf(),
        ensures
            final(self).wf(),
            match r {
                Some(b) => {
                    &&& old(self).rest().len() > 0
                    &&& b@.len() == (if old(self).rest().len() < room {
                        old(self).rest().len() as int
                    } else {
                        room as int
                    })
                    &&& b@ + final(self).rest() == old(self).rest()
                },
                None => old(self).rest().len() == 0 && final(self).rest() == old(self).rest(),
            },
    {
        let ghost before = self.rest();
        let left = self.prefix.len() - self.pos;
        if left == 0 {
            return None;
        }
        let n = if left < room {
            left
        } else {
            room
        };
        let chunk = slice_to_vec(slice_subrange(self.prefix.as_slice(), self.pos, self.pos + n));
        self.pos = self.pos + n;
        assert(chunk@ =~= before.take(n as int));
        assert(chunk@ + self.rest() =~= before);
        Some(chunk)
    }
}

}
