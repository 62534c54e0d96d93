//! Bus addresses: the textual specification `transport:key=value[,key=value...]`,
//! its parser, and its resolution into a concrete dialable endpoint.
//!
//! Two transports are supported: UNIX domain sockets (keys `path=`, `abstract=`,
//! `dir=`, `tmpdir=`, optional `guid=`) and TCP (keys `host=`, `port=`, optional
//! `noncefile=` and `guid=`). The meaning of every executable function here is
//! pinned to a specification-level parser and printer over character sequences.

use vstd::prelude::*;
use vstd::string::*;

use crate::guid::{check_guid, is_hex_digit, valid_guid};

verus! {

/// How a UNIX domain socket is addressed: a concrete filesystem path, an
/// abstract-namespace name, or a directory hint that resolution replaces with
/// a concrete path inside that directory.
#[derive(Debug, PartialEq, Eq)]
pub enum UnixSocket {
    File(String),
    Abstract(String),
    Dir(String),
    TmpDir(String),
}

/// A TCP endpoint, with the nonce file of the nonce-authenticated variant kept
/// only so that listener creation can reject it.
#[derive(Debug, PartialEq, Eq)]
pub struct TcpRef {
    pub host: String,
    pub port: u16,
    pub nonce_file: Option<String>,
}

/// The transport of a bus address: exactly one of two kinds.
#[derive(Debug, PartialEq, Eq)]
pub enum Transport {
    Unix(UnixSocket),
    Tcp(TcpRef),
}

/// A parsed bus address: a transport plus an optional session GUID.
#[derive(Debug, PartialEq, Eq)]
pub struct BusAddress {
    pub transport: Transport,
    pub guid: Option<String>,
}

/// Why an address specification was refused.
#[derive(Clone, Copy, Debug, PartialEq, Eq, Structural)]
pub enum AddressError {
    /// The specification does not follow the grammar, or misses required keys.
    Malformed,
    /// The grammar is followed, but the transport is not one of the two
    /// supported kinds.
    Unsupported,
}

/// Mathematical model of `UnixSocket`.
pub enum UnixSocketV {
    File(Seq<char>),
    Abstract(Seq<char>),
    Dir(Seq<char>),
    TmpDir(Seq<char>),
}

/// Mathematical model of `TcpRef`.
pub struct TcpRefV {
    pub host: Seq<char>,
    pub port: u16,
    pub nonce_file: Option<Seq<char>>,
}

/// Mathematical model of `Transport`.
pub enum TransportV {
    Unix(UnixSocketV),
    Tcp(TcpRefV),
}

/// Mathematical model of `BusAddress`.
pub struct BusAddressV {
    pub transport: TransportV,
    pub guid: Option<Seq<char>>,
}

/// The model of an optional string.
pub open spec fn opt_view(o: Option<String>) -> Option<Seq<char>> {
    match o {
        Option::Some(s) => Option::Some(s@),
        Option::None => Option::None,
    }
}

impl View for UnixSocket {
    type V = UnixSocketV;

    open spec fn view(&self) -> UnixSocketV {
        match self {
            UnixSocket::File(s) => UnixSocketV::File(s@),
            UnixSocket::Abstract(s) => UnixSocketV::Abstract(s@),
            UnixSocket::Dir(s) => UnixSocketV::Dir(s@),
            UnixSocket::TmpDir(s) => UnixSocketV::TmpDir(s@),
        }
    }
}

impl View for TcpRef {
    type V = TcpRefV;

    open spec fn view(&self) -> TcpRefV {
        TcpRefV { host: self.host@, port: self.port, nonce_file: opt_view(self.nonce_file) }
    }
}

impl View for Transport {
    type V = TransportV;

    open spec fn view(&self) -> TransportV {
        match self {
            Transport::Unix(u) => TransportV::Unix(u@),
            Transport::Tcp(t) => TransportV::Tcp(t@),
        }
    }
}

impl View for BusAddress {
    type V = BusAddressV;

    open spec fn view(&self) -> BusAddressV {
        BusAddressV { transport: self.transport@, guid: opt_view(self.guid) }
    }
}

/// Relies on `String::push`: appends exactly the given character at the end.
pub assume_specification [String::push] (s: &mut String, c: char)
    ensures
        final(s)@ == old(s)@.push(c),
;

/// The first position of `c` in `s`, if any.
pub open spec fn first_index_of(s: Seq<char>, c: char) -> Option<int>
    decreases s.len(),
{
    if s.len() == 0 {
        Option::None
    } else if s[0] == c {
        Option::Some(0)
    } else {
        match first_index_of(s.drop_first(), c) {
            Option::Some(i) => Option::Some(i + 1),
            Option::None => Option::None,
        }
    }
}

pub proof fn lemma_first_index_of_is(s: Seq<char>, c: char, i: int)
    requires
        0 <= i < s.len(),
        s[i] == c,
        forall|j: int| 0 <= j < i ==> s[j] != c,
    ensures
        first_index_of(s, c) == Option::Some(i),
    decreases s.len(),
{
    if i > 0 {
        let d = s.drop_first();
        assert(d[i - 1] == s[i]);
        assert forall|j: int| 0 <= j < i - 1 implies d[j] != c by {
            assert(d[j] == s[j + 1]);
        }
        lemma_first_index_of_is(d, c, i - 1);
    }
}

pub proof fn lemma_first_index_of_none(s: Seq<char>, c: char)
    requires
        forall|j: int| 0 <= j < s.len() ==> s[j] != c,
    ensures
        first_index_of(s, c) == Option::None::<int>,
    decreases s.len(),
{
    if s.len() > 0 {
        let d = s.drop_first();
        assert forall|j: int| 0 <= j < d.len() implies d[j] != c by {
            assert(d[j] == s[j + 1]);
        }
        lemma_first_index_of_none(d, c);
    }
}

/// The first position of `c` in `s` at or after `from` and before `to`,
/// searching the character range `[from, to)`.
pub(crate) fn find_char(s: &str, from: usize, to: usize, c: char) -> (r: Option<usize>)
    requires
        from <= to <= s@.len(),
    ensures
        match r {
            Option::Some(i) => from <= i < to && s@[i as int] == c && forall|j: int|
                from <= j < i ==> s@[j] != c,
            Option::None => forall|j: int| from <= j < to ==> s@[j] != c,
        },
{
    let mut i: usize = from;
    while i < to
        invariant
            from <= i <= to <= s@.len(),
            forall|j: int| from <= j < i ==> s@[j] != c,
        decreases to - i,
    {
        if s.get_char(i) == c {
            return Some(i);
        }
        i += 1;
    }
    None
}

/// Whether the character range `[start, end)` of `s` spells exactly `lit`.
pub(crate) fn range_eq(s: &str, start: usize, end: usize, lit: &str) -> (r: bool)
    requires
        start <= end <= s@.len(),
    ensures
        r == (s@.subrange(start as int, end as int) == lit@),
{
    let n = lit.unicode_len();
    let ghost sub = s@.subrange(start as int, end as int);
    if end - start != n {
        assert(sub != lit@) by {
            assert(sub.len() != lit@.len());
        }
        return false;
    }
    let mut i: usize = 0;
    while i < n
        invariant
            start <= end <= s@.len(),
            n == lit@.len(),
            end - start == n,
            0 <= i <= n,
            sub == s@.subrange(start as int, end as int),
            forall|j: int| 0 <= j < i ==> sub[j] == lit@[j],
        decreases n - i,
    {
        let a = s.get_char(start + i);
        let b = lit.get_char(i);
        if a != b {
            assert(sub[i as int] != lit@[i as int]);
            return false;
        }
        i += 1;
    }
    assert(sub =~= lit@);
    true
}

/// An ASCII alphanumeric character: the only characters allowed in a key.
pub open spec fn is_alnum(c: char) -> bool {
    ('0' <= c && c <= '9') || ('a' <= c && c <= 'z') || ('A' <= c && c <= 'Z')
}

/// Every character of `s` is ASCII alphanumeric.
pub open spec fn all_alnum(s: Seq<char>) -> bool {
    forall|i: int| 0 <= i < s.len() ==> is_alnum(#[trigger] s[i])
}

/// Whether the character range `[start, end)` of `s` is all ASCII alphanumeric.
pub(crate) fn range_all_alnum(s: &str, start: usize, end: usize) -> (r: bool)
    requires
        start <= end <= s@.len(),
    ensures
        r == all_alnum(s@.subrange(start as int, end as int)),
{
    let ghost sub = s@.subrange(start as int, end as int);
    let mut i: usize = start;
    while i < end
        invariant
            start <= i <= end <= s@.len(),
            sub == s@.subrange(start as int, end as int),
            forall|j: int| start <= j < i ==> is_alnum(#[trigger] s@[j]),
        decreases end - i,
    {
        let c = s.get_char(i);
        if !(('0' <= c && c <= '9') || ('a' <= c && c <= 'z') || ('A' <= c && c <= 'Z')) {
            assert(!is_alnum(sub[i - start]));
            return false;
        }
        i += 1;
    }
    assert(forall|j: int| 0 <= j < sub.len() ==> sub[j] == s@[start + j]);
    true
}

/// One `key=value` element of an address: the key is one or more ASCII
/// alphanumerics, the value one or more characters other than `,`, and the
/// split is at the first `=`.
pub open spec fn parse_kv(seg: Seq<char>) -> Option<(Seq<char>, Seq<char>)> {
    match first_index_of(seg, '=') {
        Option::None => Option::None,
        Option::Some(p) => if 1 <= p && all_alnum(seg.subrange(0, p)) && p + 1 < seg.len() {
            Option::Some((seg.subrange(0, p), seg.subrange(p + 1, seg.len() as int)))
        } else {
            Option::None
        },
    }
}

/// The comma-separated `key=value` list of an address: empty, or one element,
/// or one element before the first comma followed by the rest.
pub open spec fn parse_opts(s: Seq<char>) -> Option<Seq<(Seq<char>, Seq<char>)>>
    decreases s.len(),
{
    if s.len() == 0 {
        Option::Some(Seq::empty())
    } else {
        match first_index_of(s, ',') {
            Option::None => match parse_kv(s) {
                Option::Some(kv) => Option::Some(seq![kv]),
                Option::None => Option::None,
            },
            Option::Some(k) => if 0 <= k && k + 1 < s.len() {
                match parse_kv(s.subrange(0, k)) {
                    Option::Some(kv) => match parse_opts(s.subrange(k + 1, s.len() as int)) {
                        Option::Some(rest) => Option::Some(seq![kv] + rest),
                        Option::None => Option::None,
                    },
                    Option::None => Option::None,
                }
            } else {
                Option::None
            },
        }
    }
}

/// The value of `k` in a `key=value` list; when a key repeats, the last
/// occurrence wins.
pub open spec fn lookup(kvs: Seq<(Seq<char>, Seq<char>)>, k: Seq<char>) -> Option<Seq<char>>
    decreases kvs.len(),
{
    if kvs.len() == 0 {
        Option::None
    } else {
        match lookup(kvs.drop_first(), k) {
            Option::Some(v) => Option::Some(v),
            Option::None => if kvs[0].0 == k {
                Option::Some(kvs[0].1)
            } else {
                Option::None
            },
        }
    }
}

pub proof fn lemma_lookup_cons(
    kv: (Seq<char>, Seq<char>),
    rest: Seq<(Seq<char>, Seq<char>)>,
    k: Seq<char>,
)
    ensures
        lookup(seq![kv] + rest, k) == (match lookup(rest, k) {
            Option::Some(v) => Option::Some(v),
            Option::None => if kv.0 == k {
                Option::Some(kv.1)
            } else {
                Option::None
            },
        }),
{
    let s = seq![kv] + rest;
    assert(s[0] == kv);
    assert(s.drop_first() =~= rest);
}

/// The eight recognized key names spell eight different strings.
pub proof fn lemma_keys_distinct()
    ensures
        "path"@ != "abstract"@,
        "path"@ != "dir"@,
        "path"@ != "tmpdir"@,
        "path"@ != "guid"@,
        "path"@ != "host"@,
        "path"@ != "port"@,
        "path"@ != "noncefile"@,
        "abstract"@ != "dir"@,
        "abstract"@ != "tmpdir"@,
        "abstract"@ != "guid"@,
        "abstract"@ != "host"@,
        "abstract"@ != "port"@,
        "abstract"@ != "noncefile"@,
        "dir"@ != "tmpdir"@,
        "dir"@ != "guid"@,
        "dir"@ != "host"@,
        "dir"@ != "port"@,
        "dir"@ != "noncefile"@,
        "tmpdir"@ != "guid"@,
        "tmpdir"@ != "host"@,
        "tmpdir"@ != "port"@,
        "tmpdir"@ != "noncefile"@,
        "guid"@ != "host"@,
        "guid"@ != "port"@,
        "guid"@ != "noncefile"@,
        "host"@ != "port"@,
        "host"@ != "noncefile"@,
        "port"@ != "noncefile"@,
{
    reveal_strlit("path");
    reveal_strlit("abstract");
    reveal_strlit("dir");
    reveal_strlit("tmpdir");
    reveal_strlit("guid");
    reveal_strlit("host");
    reveal_strlit("port");
    reveal_strlit("noncefile");
    assert(("path"@).len() == 4 && ("abstract"@).len() == 8 && ("dir"@).len() == 3 && (
    "tmpdir"@).len() == 6 && ("guid"@).len() == 4 && ("host"@).len() == 4 && ("port"@).len() == 4
        && ("noncefile"@).len() == 9);
    assert(("path"@)[0] == 'p' && ("host"@)[0] == 'h' && ("guid"@)[0] == 'g' && ("port"@)[1]
        == 'o' && ("path"@)[1] == 'a');
}

/// The keys this broker reads out of an address specification; any other key
/// is accepted by the grammar and ignored.
#[derive(Clone, Copy, Debug, PartialEq, Eq, Structural)]
pub(crate) enum KeyId {
    Path,
    Abstract,
    Dir,
    Tmpdir,
    Guid,
    Host,
    Port,
    Noncefile,
    Other,
}

/// Which recognized key a key string spells.
pub(crate) open spec fn key_id_of(k: Seq<char>) -> KeyId {
    if k == "path"@ {
        KeyId::Path
    } else if k == "abstract"@ {
        KeyId::Abstract
    } else if k == "dir"@ {
        KeyId::Dir
    } else if k == "tmpdir"@ {
        KeyId::Tmpdir
    } else if k == "guid"@ {
        KeyId::Guid
    } else if k == "host"@ {
        KeyId::Host
    } else if k == "port"@ {
        KeyId::Port
    } else if k == "noncefile"@ {
        KeyId::Noncefile
    } else {
        KeyId::Other
    }
}

/// The recognized keys of one `key=value` list, each holding the value of its
/// last occurrence, if any.
pub(crate) struct Slots {
    pub path: Option<String>,
    pub abstract_name: Option<String>,
    pub dir: Option<String>,
    pub tmpdir: Option<String>,
    pub guid: Option<String>,
    pub host: Option<String>,
    pub port: Option<String>,
    pub noncefile: Option<String>,
}

/// `sl` holds exactly the recognized-key values of `kvs`.
pub(crate) open spec fn slots_match(sl: Slots, kvs: Seq<(Seq<char>, Seq<char>)>) -> bool {
    &&& opt_view(sl.path) == lookup(kvs, "path"@)
    &&& opt_view(sl.abstract_name) == lookup(kvs, "abstract"@)
    &&& opt_view(sl.dir) == lookup(kvs, "dir"@)
    &&& opt_view(sl.tmpdir) == lookup(kvs, "tmpdir"@)
    &&& opt_view(sl.guid) == lookup(kvs, "guid"@)
    &&& opt_view(sl.host) == lookup(kvs, "host"@)
    &&& opt_view(sl.port) == lookup(kvs, "port"@)
    &&& opt_view(sl.noncefile) == lookup(kvs, "noncefile"@)
}

fn empty_slots() -> (r: Slots)
    ensures
        slots_match(r, Seq::empty()),
{
    Slots {
        path: None,
        abstract_name: None,
        dir: None,
        tmpdir: None,
        guid: None,
        host: None,
        port: None,
        noncefile: None,
    }
}

/// Records one parsed `key=value` in front of an already-summarized list:
/// since the last occurrence of a key wins, the new value counts only where
/// the list behind it had none.
fn apply_kv(
    slots: Slots,
    kid: KeyId,
    v: String,
    Ghost(kv): Ghost<(Seq<char>, Seq<char>)>,
    Ghost(kvs): Ghost<Seq<(Seq<char>, Seq<char>)>>,
) -> (r: Slots)
    requires
        slots_match(slots, kvs),
        kid == key_id_of(kv.0),
        v@ == kv.1,
    ensures
        slots_match(r, seq![kv] + kvs),
{
    proof {
        lemma_keys_distinct();
        lemma_lookup_cons(kv, kvs, "path"@);
        lemma_lookup_cons(kv, kvs, "abstract"@);
        lemma_lookup_cons(kv, kvs, "dir"@);
        lemma_lookup_cons(kv, kvs, "tmpdir"@);
        lemma_lookup_cons(kv, kvs, "guid"@);
        lemma_lookup_cons(kv, kvs, "host"@);
        lemma_lookup_cons(kv, kvs, "port"@);
        lemma_lookup_cons(kv, kvs, "noncefile"@);
    }
    let mut r = slots;
    match kid {
        KeyId::Path => if r.path.is_none() {
            r.path = Some(v);
        },
        KeyId::Abstract => if r.abstract_name.is_none() {
            r.abstract_name = Some(v);
        },
        KeyId::Dir => if r.dir.is_none() {
            r.dir = Some(v);
        },
        KeyId::Tmpdir => if r.tmpdir.is_none() {
            r.tmpdir = Some(v);
        },
        KeyId::Guid => if r.guid.is_none() {
            r.guid = Some(v);
        },
        KeyId::Host => if r.host.is_none() {
            r.host = Some(v);
        },
        KeyId::Port => if r.port.is_none() {
            r.port = Some(v);
        },
        KeyId::Noncefile => if r.noncefile.is_none() {
            r.noncefile = Some(v);
        },
        KeyId::Other => {},
    }
    r
}

/// Parses the `key=value` element standing in the character range
/// `[start, end)` of `s`, classifying its key.
fn parse_kv_exec(s: &str, start: usize, end: usize) -> (r: Option<(KeyId, String)>)
    requires
        start <= end <= s@.len(),
    ensures
        ({
            let seg = s@.subrange(start as int, end as int);
            match parse_kv(seg) {
                Option::None => r is None,
                Option::Some(kv) => match r {
                    Option::Some(p) => p.0 == key_id_of(kv.0) && p.1@ == kv.1,
                    Option::None => false,
                },
            }
        }),
{
    let ghost seg = s@.subrange(start as int, end as int);
    match find_char(s, start, end, '=') {
        None => {
            proof {
                assert forall|j: int| 0 <= j < seg.len() implies seg[j] != '=' by {
                    assert(seg[j] == s@[start + j]);
                }
                lemma_first_index_of_none(seg, '=');
            }
            None
        },
        Some(p) => {
            proof {
                assert(seg[p - start] == s@[p as int]);
                assert forall|j: int| 0 <= j < p - start implies seg[j] != '=' by {
                    assert(seg[j] == s@[start + j]);
                }
                lemma_first_index_of_is(seg, '=', p - start);
            }
            let ghost key = seg.subrange(0, p - start);
            let ghost val = seg.subrange(p - start + 1, seg.len() as int);
            proof {
                assert(key =~= s@.subrange(start as int, p as int));
                assert(val =~= s@.subrange(p + 1, end as int));
            }
            if p - start < 1 {
                return None;
            }
            if !range_all_alnum(s, start, p) {
                return None;
            }
            if p + 1 >= end {
                return None;
            }
            let v = String::from_str(s.substring_char(p + 1, end));
            let kid = if range_eq(s, start, p, "path") {
                KeyId::Path
            } else if range_eq(s, start, p, "abstract") {
                KeyId::Abstract
            } else if range_eq(s, start, p, "dir") {
                KeyId::Dir
            } else if range_eq(s, start, p, "tmpdir") {
                KeyId::Tmpdir
            } else if range_eq(s, start, p, "guid") {
                KeyId::Guid
            } else if range_eq(s, start, p, "host") {
                KeyId::Host
            } else if range_eq(s, start, p, "port") {
                KeyId::Port
            } else if range_eq(s, start, p, "noncefile") {
                KeyId::Noncefile
            } else {
                KeyId::Other
            };
            Some((kid, v))
        },
    }
}

/// An ASCII decimal digit.
pub open spec fn is_digit(c: char) -> bool {
    '0' <= c && c <= '9'
}

/// Every character of `s` is an ASCII decimal digit.
pub open spec fn all_digits(s: Seq<char>) -> bool {
    forall|i: int| 0 <= i < s.len() ==> is_digit(#[trigger] s[i])
}

/// The numeric value of an ASCII decimal digit.
pub open spec fn digit_val(c: char) -> int {
    (c as int) - 48
}

/// The value of a decimal numeral read left to right.
pub open spec fn dec_val(s: Seq<char>) -> int
    decreases s.len(),
{
    if s.len() == 0 {
        0
    } else {
        dec_val(s.drop_last()) * 10 + digit_val(s.last())
    }
}

/// A valid `port=` value: a nonempty digit string denoting at most 65535.
pub open spec fn valid_port(s: Seq<char>) -> bool {
    1 <= s.len() && all_digits(s) && dec_val(s) <= 65535
}

/// A digit string is worth a nonnegative amount.
pub proof fn lemma_dec_val_nonneg(s: Seq<char>)
    requires
        all_digits(s),
    ensures
        dec_val(s) >= 0,
    decreases s.len(),
{
    if s.len() > 0 {
        assert(forall|j: int| 0 <= j < s.drop_last().len() ==> s.drop_last()[j] == s[j]);
        lemma_dec_val_nonneg(s.drop_last());
        assert(is_digit(s.last()));
    }
}

/// A numeral is worth at least any of its prefixes.
pub proof fn lemma_dec_val_prefix(s: Seq<char>, i: int)
    requires
        0 <= i <= s.len(),
        all_digits(s),
    ensures
        dec_val(s) >= dec_val(s.subrange(0, i)),
    decreases s.len() - i,
{
    if i == s.len() {
        assert(s.subrange(0, i) =~= s);
    } else {
        lemma_dec_val_prefix(s, i + 1);
        let t = s.subrange(0, i + 1);
        assert(t.drop_last() =~= s.subrange(0, i));
        assert(is_digit(t.last()));
        assert(forall|j: int| 0 <= j < i ==> s.subrange(0, i)[j] == s[j]);
        assert(all_digits(s.subrange(0, i)));
        lemma_dec_val_nonneg(s.subrange(0, i));
    }
}

/// Reads a `port=` value: the port number when the value is a valid decimal
/// numeral up to 65535, and nothing otherwise.
pub(crate) fn parse_port(p: &str) -> (r: Option<u16>)
    ensures
        match r {
            Option::Some(v) => valid_port(p@) && v as int == dec_val(p@),
            Option::None => !valid_port(p@),
        },
{
    let n = p.unicode_len();
    if n == 0 {
        return None;
    }
    let mut acc: u32 = 0;
    let mut i: usize = 0;
    while i < n
        invariant
            0 < n == p@.len(),
            0 <= i <= n,
            all_digits(p@.subrange(0, i as int)),
            acc as int == dec_val(p@.subrange(0, i as int)),
            acc <= 65535,
        decreases n - i,
    {
        let c = p.get_char(i);
        if !('0' <= c && c <= '9') {
            assert(!is_digit(p@[i as int]));
            return None;
        }
        let d = (c as u32) - 48;
        proof {
            assert(p@.subrange(0, i + 1).drop_last() =~= p@.subrange(0, i as int));
            assert(p@.subrange(0, i + 1).last() == p@[i as int]);
        }
        let next = acc * 10 + d;
        if next > 65535 {
            proof {
                if all_digits(p@) {
                    lemma_dec_val_prefix(p@, i + 1);
                }
            }
            return None;
        }
        acc = next;
        i += 1;
    }
    assert(p@.subrange(0, n as int) =~= p@);
    Some(acc as u16)
}

/// A present `guid=` value must be a well-formed session GUID.
pub open spec fn guid_ok(g: Option<Seq<char>>) -> bool {
    match g {
        Option::None => true,
        Option::Some(s) => valid_guid(s),
    }
}

/// The meaning of a `unix:` key list: exactly one of the four addressing
/// sub-modes, used verbatim.
pub open spec fn interp_unix(kvs: Seq<(Seq<char>, Seq<char>)>) -> Result<
    TransportV,
    AddressError,
> {
    let p = lookup(kvs, "path"@);
    let a = lookup(kvs, "abstract"@);
    let d = lookup(kvs, "dir"@);
    let t = lookup(kvs, "tmpdir"@);
    if p is Some && a is None && d is None && t is None {
        Result::Ok(TransportV::Unix(UnixSocketV::File(p->0)))
    } else if p is None && a is Some && d is None && t is None {
        Result::Ok(TransportV::Unix(UnixSocketV::Abstract(a->0)))
    } else if p is None && a is None && d is Some && t is None {
        Result::Ok(TransportV::Unix(UnixSocketV::Dir(d->0)))
    } else if p is None && a is None && d is None && t is Some {
        Result::Ok(TransportV::Unix(UnixSocketV::TmpDir(t->0)))
    } else {
        Result::Err(AddressError::Malformed)
    }
}

/// The meaning of a `tcp:` key list: a host and a valid port, with the nonce
/// file kept aside.
pub open spec fn interp_tcp(kvs: Seq<(Seq<char>, Seq<char>)>) -> Result<TransportV, AddressError> {
    let h = lookup(kvs, "host"@);
    let po = lookup(kvs, "port"@);
    let nf = lookup(kvs, "noncefile"@);
    if h is Some && po is Some && valid_port(po->0) {
        Result::Ok(
            TransportV::Tcp(
                TcpRefV { host: h->0, port: dec_val(po->0) as u16, nonce_file: nf },
            ),
        )
    } else {
        Result::Err(AddressError::Malformed)
    }
}

/// The meaning of a parsed transport name and key list.
pub open spec fn interp(t: Seq<char>, kvs: Seq<(Seq<char>, Seq<char>)>) -> Result<
    BusAddressV,
    AddressError,
> {
    let g = lookup(kvs, "guid"@);
    if !guid_ok(g) {
        Result::Err(AddressError::Malformed)
    } else if t == "unix"@ {
        match interp_unix(kvs) {
            Result::Ok(tr) => Result::Ok(BusAddressV { transport: tr, guid: g }),
            Result::Err(e) => Result::Err(e),
        }
    } else if t == "tcp"@ {
        match interp_tcp(kvs) {
            Result::Ok(tr) => Result::Ok(BusAddressV { transport: tr, guid: g }),
            Result::Err(e) => Result::Err(e),
        }
    } else {
        Result::Err(AddressError::Unsupported)
    }
}

/// The meaning of an address specification: a nonempty transport name before
/// the first colon, then the key list, interpreted.
pub open spec fn parse_spec(s: Seq<char>) -> Result<BusAddressV, AddressError> {
    match first_index_of(s, ':') {
        Option::None => Result::Err(AddressError::Malformed),
        Option::Some(c) => if c < 1 {
            Result::Err(AddressError::Malformed)
        } else {
            match parse_opts(s.subrange(c + 1, s.len() as int)) {
                Option::None => Result::Err(AddressError::Malformed),
                Option::Some(kvs) => interp(s.subrange(0, c), kvs),
            }
        },
    }
}

/// Parses the `key=value` list standing in `s` from position `pos` on,
/// summarizing it into its recognized keys.
fn parse_opts_exec(s: &str, pos: usize) -> (r: Option<Slots>)
    requires
        pos <= s@.len(),
    ensures
        ({
            let rest = s@.subrange(pos as int, s@.len() as int);
            match parse_opts(rest) {
                Option::Some(kvs) => match r {
                    Option::Some(sl) => slots_match(sl, kvs),
                    Option::None => false,
                },
                Option::None => r is None,
            }
        }),
    decreases s@.len() - pos,
{
    let len = s.unicode_len();
    let ghost rest = s@.subrange(pos as int, s@.len() as int);
    if pos == len {
        assert(rest.len() == 0);
        return Some(empty_slots());
    }
    match find_char(s, pos, len, ',') {
        None => {
            proof {
                assert forall|j: int| 0 <= j < rest.len() implies rest[j] != ',' by {
                    assert(rest[j] == s@[pos + j]);
                }
                lemma_first_index_of_none(rest, ',');
                assert(rest =~= s@.subrange(pos as int, len as int));
            }
            match parse_kv_exec(s, pos, len) {
                None => None,
                Some((kid, v)) => {
                    let ghost kv = parse_kv(rest)->0;
                    let sl = apply_kv(empty_slots(), kid, v, Ghost(kv), Ghost(Seq::empty()));
                    proof {
                        assert(seq![kv] + Seq::<(Seq<char>, Seq<char>)>::empty() =~= seq![kv]);
                    }
                    Some(sl)
                },
            }
        },
        Some(k) => {
            proof {
                assert(rest[k - pos] == s@[k as int]);
                assert forall|j: int| 0 <= j < k - pos implies rest[j] != ',' by {
                    assert(rest[j] == s@[pos + j]);
                }
                lemma_first_index_of_is(rest, ',', k - pos);
                assert(rest.subrange(0, k - pos) =~= s@.subrange(pos as int, k as int));
                assert(rest.subrange(k - pos + 1, rest.len() as int) =~= s@.subrange(
                    k + 1,
                    len as int,
                ));
            }
            if k + 1 >= len {
                return None;
            }
            match parse_kv_exec(s, pos, k) {
                None => None,
                Some((kid, v)) => {
                    let ghost kv = parse_kv(rest.subrange(0, k - pos))->0;
                    match parse_opts_exec(s, k + 1) {
                        None => None,
                        Some(sl) => {
                            let ghost kvs_rest = parse_opts(
                                rest.subrange(k - pos + 1, rest.len() as int),
                            )->0;
                            let sl2 = apply_kv(sl, kid, v, Ghost(kv), Ghost(kvs_rest));
                            Some(sl2)
                        },
                    }
                },
            }
        },
    }
}

/// The character of an ASCII decimal digit value.
pub open spec fn digit_char(d: int) -> char {
    ((48 + d) as u8) as char
}

/// The decimal numeral of a nonnegative number, most significant digit first.
pub open spec fn dec_digits(n: int) -> Seq<char>
    decreases n,
{
    if n < 10 {
        seq![digit_char(n)]
    } else {
        dec_digits(n / 10).push(digit_char(n % 10))
    }
}

/// Renders a number as its decimal numeral.
pub fn u32_to_dec(n: u32) -> (r: String)
    ensures
        r@ == dec_digits(n as int),
    decreases n,
{
    if n < 10 {
        let mut s = String::new();
        s.push((48 + n as u8) as char);
        assert(s@ =~= dec_digits(n as int));
        s
    } else {
        let mut s = u32_to_dec(n / 10);
        s.push((48 + (n % 10) as u8) as char);
        s
    }
}

/// The canonical text of a UNIX transport.
pub open spec fn unix_sock_str(u: UnixSocketV) -> Seq<char> {
    match u {
        UnixSocketV::File(p) => "unix:path="@ + p,
        UnixSocketV::Abstract(a) => "unix:abstract="@ + a,
        UnixSocketV::Dir(d) => "unix:dir="@ + d,
        UnixSocketV::TmpDir(d) => "unix:tmpdir="@ + d,
    }
}

/// The canonical text of a TCP transport.
pub open spec fn tcp_str(t: TcpRefV) -> Seq<char> {
    "tcp:host="@ + t.host + ",port="@ + dec_digits(t.port as int) + (match t.nonce_file {
        Option::None => Seq::<char>::empty(),
        Option::Some(f) => ",noncefile="@ + f,
    })
}

/// The canonical text of the optional GUID of an address.
pub open spec fn guid_suffix(g: Option<Seq<char>>) -> Seq<char> {
    match g {
        Option::None => Seq::<char>::empty(),
        Option::Some(s) => ",guid="@ + s,
    }
}

/// The canonical text of an address: what the broker advertises, dialable
/// verbatim under the same grammar.
pub open spec fn addr_str(a: BusAddressV) -> Seq<char> {
    (match a.transport {
        TransportV::Unix(u) => unix_sock_str(u),
        TransportV::Tcp(t) => tcp_str(t),
    }) + guid_suffix(a.guid)
}

/// Renders an address in its canonical textual form.
pub fn canonical_address(a: &BusAddress) -> (r: String)
    ensures
        r@ == addr_str(a@),
{
    let mut out = String::new();
    match &a.transport {
        Transport::Unix(u) => {
            match u {
                UnixSocket::File(p) => {
                    out.append("unix:path=");
                    out.append(p.as_str());
                },
                UnixSocket::Abstract(n) => {
                    out.append("unix:abstract=");
                    out.append(n.as_str());
                },
                UnixSocket::Dir(d) => {
                    out.append("unix:dir=");
                    out.append(d.as_str());
                },
                UnixSocket::TmpDir(d) => {
                    out.append("unix:tmpdir=");
                    out.append(d.as_str());
                },
            }
        },
        Transport::Tcp(t) => {
            out.append("tcp:host=");
            out.append(t.host.as_str());
            out.append(",port=");
            let digits = u32_to_dec(t.port as u32);
            out.append(digits.as_str());
            match &t.nonce_file {
                Some(f) => {
                    out.append(",noncefile=");
                    out.append(f.as_str());
                },
                None => {},
            }
        },
    }
    match &a.guid {
        Some(g) => {
            out.append(",guid=");
            out.append(g.as_str());
        },
        None => {},
    }
    assert(out@ =~= addr_str(a@));
    out
}

/// The concrete socket path synthesized inside a directory hint.
pub open spec fn dir_socket_path(dir: Seq<char>, n: int) -> Seq<char> {
    dir + "/dbus-"@ + dec_digits(n)
}

/// What resolution makes of a parsed address, given the freshly generated
/// GUID `g` and the drawn socket-name number `n`: an explicit GUID is kept and
/// a missing one becomes `g`; a directory or temp-directory hint becomes a
/// concrete socket path inside that directory; everything else is verbatim.
pub open spec fn resolve_spec(a: BusAddressV, g: Seq<char>, n: int) -> BusAddressV {
    let guid = match a.guid {
        Option::Some(_) => a.guid,
        Option::None => Option::Some(g),
    };
    let transport = match a.transport {
        TransportV::Unix(UnixSocketV::Dir(d)) => TransportV::Unix(
            UnixSocketV::File(dir_socket_path(d, n)),
        ),
        TransportV::Unix(UnixSocketV::TmpDir(d)) => TransportV::Unix(
            UnixSocketV::File(dir_socket_path(d, n)),
        ),
        t => t,
    };
    BusAddressV { transport, guid }
}

/// Applies resolution with the GUID and socket-name number fixed.
pub fn resolve_with(a: BusAddress, fresh: String, n: u32) -> (r: BusAddress)
    ensures
        r@ == resolve_spec(a@, fresh@, n as int),
{
    let guid = match a.guid {
        Some(g) => Some(g),
        None => Some(fresh),
    };
    let transport = match a.transport {
        Transport::Unix(u) => match u {
            UnixSocket::Dir(d) => {
                let mut p = d;
                p.append("/dbus-");
                let digits = u32_to_dec(n);
                p.append(digits.as_str());
                assert(p@ =~= dir_socket_path(a@.transport->Unix_0->Dir_0, n as int));
                Transport::Unix(UnixSocket::File(p))
            },
            UnixSocket::TmpDir(d) => {
                let mut p = d;
                p.append("/dbus-");
                let digits = u32_to_dec(n);
                p.append(digits.as_str());
                assert(p@ =~= dir_socket_path(a@.transport->Unix_0->TmpDir_0, n as int));
                Transport::Unix(UnixSocket::File(p))
            },
            other => Transport::Unix(other),
        },
        t => t,
    };
    BusAddress { transport, guid }
}

/// Relies on `fastrand::u32`: a number drawn from the given range; the range
/// `1_000_000..u32::MAX` is nonempty, so the call returns and the result lies
/// in it. Which number comes out depends on the generator, so nothing more is
/// claimed.
#[verifier::external_body]
pub(crate) fn random_socket_suffix() -> (r: u32)
    ensures
        1_000_000 <= r < u32::MAX,
{
    fastrand::u32(1_000_000..u32::MAX)
}

/// Resolves an address specification into a concrete dialable address:
/// parses it, adopts the explicit session GUID or attaches a freshly
/// generated one, and replaces a directory or temp-directory hint with a
/// randomly named socket path inside that directory.
pub fn resolve_address(spec: &str) -> (r: Result<BusAddress, AddressError>)
    ensures
        match parse_spec(spec@) {
            Result::Ok(a) => match r {
                Result::Ok(b) => exists|g: Seq<char>, n: int|
                    valid_guid(g) && 1_000_000 <= n < u32::MAX && b@ == resolve_spec(a, g, n),
                Result::Err(_) => false,
            },
            Result::Err(e) => r matches Result::Err(e2) && e2 == e,
        },
{
    let parsed = match parse_address(spec) {
        Ok(a) => a,
        Err(e) => {
            return Err(e);
        },
    };
    let fresh = crate::guid::fresh_guid();
    let n = random_socket_suffix();
    let ghost gv = fresh@;
    let ghost nv = n as int;
    let resolved = resolve_with(parsed, fresh, n);
    proof {
        assert(valid_guid(gv) && 1_000_000 <= nv < u32::MAX && resolved@ == resolve_spec(
            parse_spec(spec@)->Ok_0,
            gv,
            nv,
        ));
    }
    Ok(resolved)
}

/// A value the grammar can carry verbatim: nonempty and free of commas.
pub open spec fn value_ok(v: Seq<char>) -> bool {
    1 <= v.len() && forall|i: int| 0 <= i < v.len() ==> #[trigger] v[i] != ','
}

/// A well-formed address: every carried value fits the grammar and a present
/// GUID is well-formed.
pub open spec fn addr_wf(a: BusAddressV) -> bool {
    &&& guid_ok(a.guid)
    &&& match a.transport {
        TransportV::Unix(UnixSocketV::File(p)) => value_ok(p),
        TransportV::Unix(UnixSocketV::Abstract(s)) => value_ok(s),
        TransportV::Unix(UnixSocketV::Dir(d)) => value_ok(d),
        TransportV::Unix(UnixSocketV::TmpDir(d)) => value_ok(d),
        TransportV::Tcp(t) => value_ok(t.host) && (match t.nonce_file {
            Option::Some(f) => value_ok(f),
            Option::None => true,
        }),
    }
}

/// Facts about the fixed words of the grammar, used when replaying the parse
/// of a canonically rendered address.
pub proof fn lemma_grammar_words()
    ensures
        "unix"@.len() == 4 && all_alnum("unix"@) && (forall|i: int|
            0 <= i < 4 ==> ("unix"@)[i] != ':'),
        "tcp"@.len() == 3 && all_alnum("tcp"@) && (forall|i: int|
            0 <= i < 3 ==> ("tcp"@)[i] != ':'),
        "path"@.len() == 4 && all_alnum("path"@),
        "abstract"@.len() == 8 && all_alnum("abstract"@),
        "dir"@.len() == 3 && all_alnum("dir"@),
        "tmpdir"@.len() == 6 && all_alnum("tmpdir"@),
        "guid"@.len() == 4 && all_alnum("guid"@),
        "host"@.len() == 4 && all_alnum("host"@),
        "port"@.len() == 4 && all_alnum("port"@),
        "noncefile"@.len() == 9 && all_alnum("noncefile"@),
{
    reveal_strlit("unix");
    reveal_strlit("tcp");
    reveal_strlit("path");
    reveal_strlit("abstract");
    reveal_strlit("dir");
    reveal_strlit("tmpdir");
    reveal_strlit("guid");
    reveal_strlit("host");
    reveal_strlit("port");
    reveal_strlit("noncefile");
}

/// Splitting a rendered address at its first colon recovers the transport
/// name and the key list.
pub proof fn lemma_parse_split(name: Seq<char>, opts: Seq<char>)
    requires
        1 <= name.len(),
        forall|i: int| 0 <= i < name.len() ==> #[trigger] name[i] != ':',
    ensures
        parse_spec(name + seq![':'] + opts) == (match parse_opts(opts) {
            Option::None => Result::<BusAddressV, AddressError>::Err(AddressError::Malformed),
            Option::Some(kvs) => interp(name, kvs),
        }),
{
    let s = name + seq![':'] + opts;
    assert(s[name.len() as int] == ':');
    assert forall|j: int| 0 <= j < name.len() implies s[j] != ':' by {
        assert(s[j] == name[j]);
    }
    lemma_first_index_of_is(s, ':', name.len() as int);
    assert(s.subrange(0, name.len() as int) =~= name);
    assert(s.subrange(name.len() as int + 1, s.len() as int) =~= opts);
}

/// A single trailing `key=value` parses to exactly that pair.
pub proof fn lemma_opts_last(key: Seq<char>, v: Seq<char>)
    requires
        1 <= key.len(),
        all_alnum(key),
        value_ok(v),
        forall|i: int| 0 <= i < v.len() ==> #[trigger] v[i] != '=',
    ensures
        parse_opts(key + seq!['='] + v) == Option::Some(seq![(key, v)]),
{
    let seg = key + seq!['='] + v;
    assert(seg.len() == key.len() + 1 + v.len());
    assert forall|j: int| 0 <= j < seg.len() implies seg[j] != ',' by {
        if j < key.len() {
            assert(seg[j] == key[j]);
            assert(is_alnum(key[j]));
        } else if j == key.len() {
            assert(seg[j] == '=');
        } else {
            assert(seg[j] == v[j - key.len() - 1]);
        }
    }
    lemma_first_index_of_none(seg, ',');
    assert(seg[key.len() as int] == '=');
    assert forall|j: int| 0 <= j < key.len() implies seg[j] != '=' by {
        assert(seg[j] == key[j]);
        assert(is_alnum(key[j]));
    }
    lemma_first_index_of_is(seg, '=', key.len() as int);
    assert(seg.subrange(0, key.len() as int) =~= key);
    assert(seg.subrange(key.len() as int + 1, seg.len() as int) =~= v);
    assert(parse_kv(seg) == Option::Some((key, v)));
}

/// A `key=value,` prefix parses to that pair in front of whatever the tail
/// parses to.
pub proof fn lemma_opts_prefix(key: Seq<char>, v: Seq<char>, tail: Seq<char>)
    requires
        1 <= key.len(),
        all_alnum(key),
        value_ok(v),
        1 <= tail.len(),
    ensures
        parse_opts(key + seq!['='] + v + seq![','] + tail) == (match parse_opts(tail) {
            Option::Some(kvs) => Option::Some(seq![(key, v)] + kvs),
            Option::None => Option::<Seq<(Seq<char>, Seq<char>)>>::None,
        }),
{
    let s = key + seq!['='] + v + seq![','] + tail;
    let k = key.len() + 1 + v.len();
    assert(s[k as int] == ',');
    assert forall|j: int| 0 <= j < k implies s[j] != ',' by {
        if j < key.len() {
            assert(s[j] == key[j]);
            assert(is_alnum(key[j]));
        } else if j == key.len() {
            assert(s[j] == '=');
        } else {
            assert(s[j] == v[j - key.len() - 1]);
        }
    }
    lemma_first_index_of_is(s, ',', k as int);
    let seg = s.subrange(0, k as int);
    assert(seg[key.len() as int] == '=');
    assert forall|j: int| 0 <= j < key.len() implies seg[j] != '=' by {
        assert(seg[j] == key[j]);
        assert(is_alnum(key[j]));
    }
    lemma_first_index_of_is(seg, '=', key.len() as int);
    assert(seg.subrange(0, key.len() as int) =~= key);
    assert(seg.subrange(key.len() as int + 1, seg.len() as int) =~= v);
    assert(parse_kv(seg) == Option::Some((key, v)));
    assert(s.subrange(k as int + 1, s.len() as int) =~= tail);
}

/// The decimal numeral of a nonnegative number is nonempty, all digits, and
/// reads back to that number.
pub proof fn lemma_dec_digits_val(n: int)
    requires
        0 <= n,
    ensures
        1 <= dec_digits(n).len(),
        all_digits(dec_digits(n)),
        dec_val(dec_digits(n)) == n,
    decreases n,
{
    if n < 10 {
        let d = dec_digits(n);
        assert(d[0] == digit_char(n));
        assert(is_digit(digit_char(n)));
        assert(d.drop_last() =~= Seq::<char>::empty());
        assert(digit_val(digit_char(n)) == n);
        assert(dec_val(d) == dec_val(d.drop_last()) * 10 + digit_val(d.last()));
        assert(dec_val(d.drop_last()) == 0);
        assert(dec_val(d) == n);
    } else {
        lemma_dec_digits_val(n / 10);
        let d = dec_digits(n);
        assert(d.drop_last() =~= dec_digits(n / 10));
        assert(d.last() == digit_char(n % 10));
        assert(is_digit(digit_char(n % 10)));
        assert(digit_val(digit_char(n % 10)) == n % 10);
        vstd::arithmetic::div_mod::lemma_fundamental_div_mod(n, 10);
        assert(dec_val(d) == dec_val(d.drop_last()) * 10 + digit_val(d.last()));
        assert(dec_val(d.drop_last()) == n / 10);
        assert(dec_val(d) == n);
        assert forall|i: int| 0 <= i < d.len() implies is_digit(d[i]) by {
            if i < d.len() - 1 {
                assert(d[i] == dec_digits(n / 10)[i]);
            }
        }
    }
}

/// A digit is neither a comma nor an equals sign.
pub proof fn lemma_digits_are_values(s: Seq<char>)
    requires
        all_digits(s),
    ensures
        forall|i: int| 0 <= i < s.len() ==> #[trigger] s[i] != ',',
        forall|i: int| 0 <= i < s.len() ==> #[trigger] s[i] != '=',
{
    assert forall|i: int| 0 <= i < s.len() implies s[i] != ',' && s[i] != '=' by {
        assert(is_digit(s[i]));
    }
}

/// Resolution preserves an explicit session GUID exactly, and attaches the
/// freshly generated one otherwise.
pub proof fn lemma_resolution_preserves_guid(a: BusAddressV, g: Seq<char>, n: int)
    ensures
        a.guid is Some ==> resolve_spec(a, g, n).guid == a.guid,
        a.guid is None ==> resolve_spec(a, g, n).guid == Option::Some(g),
{
}

/// Two different drawn numbers synthesize two different socket paths inside
/// the same directory: the deterministic core of directory-hint freshness.
pub proof fn lemma_distinct_suffixes_distinct_paths(dir: Seq<char>, n1: int, n2: int)
    requires
        0 <= n1,
        0 <= n2,
        n1 != n2,
    ensures
        dir_socket_path(dir, n1) != dir_socket_path(dir, n2),
{
    lemma_dec_digits_val(n1);
    lemma_dec_digits_val(n2);
    let base = dir + "/dbus-"@;
    let p1 = dir_socket_path(dir, n1);
    let p2 = dir_socket_path(dir, n2);
    if p1 == p2 {
        assert(p1.len() == base.len() + dec_digits(n1).len());
        assert(p2.len() == base.len() + dec_digits(n2).len());
        assert(p1.subrange(base.len() as int, p1.len() as int) =~= dec_digits(n1));
        assert(p2.subrange(base.len() as int, p2.len() as int) =~= dec_digits(n2));
        assert(dec_digits(n1) == dec_digits(n2));
        assert(false);
    }
}

/// The value of the single `key=value` list element.
pub proof fn lemma_lookup_single(kv: (Seq<char>, Seq<char>), k: Seq<char>)
    ensures
        lookup(seq![kv], k) == (if kv.0 == k {
            Option::Some(kv.1)
        } else {
            Option::<Seq<char>>::None
        }),
{
    assert(seq![kv] + Seq::<(Seq<char>, Seq<char>)>::empty() =~= seq![kv]);
    lemma_lookup_cons(kv, Seq::empty(), k);
}

/// A well-formed GUID has no comma and no equals sign in it.
pub proof fn lemma_guid_chars(g: Seq<char>)
    requires
        valid_guid(g),
    ensures
        value_ok(g),
        forall|i: int| 0 <= i < g.len() ==> #[trigger] g[i] != '=',
{
    assert forall|i: int| 0 <= i < g.len() implies g[i] != ',' && g[i] != '=' by {
        assert(is_hex_digit(g[i]));
    }
}

/// The composite words of the canonical renderer, spelled out.
pub proof fn lemma_render_words()
    ensures
        "unix:path="@ == "unix"@ + seq![':'] + ("path"@ + seq!['=']),
        "unix:abstract="@ == "unix"@ + seq![':'] + ("abstract"@ + seq!['=']),
        "unix:dir="@ == "unix"@ + seq![':'] + ("dir"@ + seq!['=']),
        "unix:tmpdir="@ == "unix"@ + seq![':'] + ("tmpdir"@ + seq!['=']),
        "tcp:host="@ == "tcp"@ + seq![':'] + ("host"@ + seq!['=']),
        ",port="@ == seq![','] + ("port"@ + seq!['=']),
        ",guid="@ == seq![','] + ("guid"@ + seq!['=']),
        "/dbus-"@.len() == 6 && (forall|i: int| 0 <= i < 6 ==> ("/dbus-"@)[i] != ','),
{
    reveal_strlit("unix:path=");
    reveal_strlit("unix:abstract=");
    reveal_strlit("unix:dir=");
    reveal_strlit("unix:tmpdir=");
    reveal_strlit("tcp:host=");
    reveal_strlit(",port=");
    reveal_strlit(",guid=");
    reveal_strlit("/dbus-");
    reveal_strlit("unix");
    reveal_strlit("tcp");
    reveal_strlit("path");
    reveal_strlit("abstract");
    reveal_strlit("dir");
    reveal_strlit("tmpdir");
    reveal_strlit("host");
    reveal_strlit("port");
    reveal_strlit("guid");
    assert("unix:path="@ =~= "unix"@ + seq![':'] + ("path"@ + seq!['=']));
    assert("unix:abstract="@ =~= "unix"@ + seq![':'] + ("abstract"@ + seq!['=']));
    assert("unix:dir="@ =~= "unix"@ + seq![':'] + ("dir"@ + seq!['=']));
    assert("unix:tmpdir="@ =~= "unix"@ + seq![':'] + ("tmpdir"@ + seq!['=']));
    assert("tcp:host="@ =~= "tcp"@ + seq![':'] + ("host"@ + seq!['=']));
    assert(",port="@ =~= seq![','] + ("port"@ + seq!['=']));
    assert(",guid="@ =~= seq![','] + ("guid"@ + seq!['=']));
}

/// The canonical text of a well-formed address that carries a GUID parses
/// back to exactly that address: the advertised string is dialable verbatim,
/// under the very grammar clients use.
pub proof fn lemma_canonical_round_trip(a: BusAddressV)
    requires
        addr_wf(a),
        a.guid is Some,
        valid_guid(a.guid->0),
        a.transport matches TransportV::Tcp(t) ==> t.nonce_file is None,
    ensures
        parse_spec(addr_str(a)) == Result::<BusAddressV, AddressError>::Ok(a),
{
    lemma_grammar_words();
    lemma_keys_distinct();
    lemma_render_words();
    let s = addr_str(a);
    let g = a.guid->0;
    lemma_guid_chars(g);
    let gkv = ("guid"@, g);
    let gseg = "guid"@ + seq!['='] + g;
    lemma_opts_last("guid"@, g);
    assert(parse_opts(gseg) == Option::Some(seq![gkv]));
    match a.transport {
        TransportV::Unix(u) => {
            let (key, v) = match u {
                UnixSocketV::File(p) => ("path"@, p),
                UnixSocketV::Abstract(x) => ("abstract"@, x),
                UnixSocketV::Dir(x) => ("dir"@, x),
                UnixSocketV::TmpDir(x) => ("tmpdir"@, x),
            };
            let opts = key + seq!['='] + v + seq![','] + gseg;
            assert(s =~= "unix"@ + seq![':'] + opts);
            lemma_opts_prefix(key, v, gseg);
            let kvs = seq![(key, v)] + seq![gkv];
            assert(parse_opts(opts) == Option::Some(kvs));
            lemma_parse_split("unix"@, opts);
            assert(parse_spec(s) == interp("unix"@, kvs));
            lemma_lookup_single(gkv, "path"@);
            lemma_lookup_single(gkv, "abstract"@);
            lemma_lookup_single(gkv, "dir"@);
            lemma_lookup_single(gkv, "tmpdir"@);
            lemma_lookup_single(gkv, "guid"@);
            lemma_lookup_cons((key, v), seq![gkv], "path"@);
            lemma_lookup_cons((key, v), seq![gkv], "abstract"@);
            lemma_lookup_cons((key, v), seq![gkv], "dir"@);
            lemma_lookup_cons((key, v), seq![gkv], "tmpdir"@);
            lemma_lookup_cons((key, v), seq![gkv], "guid"@);
            assert(lookup(kvs, "guid"@) == Option::Some(g));
            assert(interp_unix(kvs) == Result::<TransportV, AddressError>::Ok(a.transport));
        },
        TransportV::Tcp(t) => {
            let dd = dec_digits(t.port as int);
            lemma_dec_digits_val(t.port as int);
            lemma_digits_are_values(dd);
            let pseg = "port"@ + seq!['='] + dd;
            let popts = pseg + seq![','] + gseg;
            let opts = "host"@ + seq!['='] + t.host + seq![','] + popts;
            assert(s =~= "tcp"@ + seq![':'] + opts);
            lemma_opts_prefix("port"@, dd, gseg);
            let pkvs = seq![("port"@, dd)] + seq![gkv];
            assert(parse_opts(popts) == Option::Some(pkvs));
            lemma_opts_prefix("host"@, t.host, popts);
            let kvs = seq![("host"@, t.host)] + pkvs;
            assert(parse_opts(opts) == Option::Some(kvs));
            lemma_parse_split("tcp"@, opts);
            assert(parse_spec(s) == interp("tcp"@, kvs));
            lemma_lookup_single(gkv, "host"@);
            lemma_lookup_single(gkv, "port"@);
            lemma_lookup_single(gkv, "noncefile"@);
            lemma_lookup_single(gkv, "guid"@);
            lemma_lookup_cons(("port"@, dd), seq![gkv], "host"@);
            lemma_lookup_cons(("port"@, dd), seq![gkv], "port"@);
            lemma_lookup_cons(("port"@, dd), seq![gkv], "noncefile"@);
            lemma_lookup_cons(("port"@, dd), seq![gkv], "guid"@);
            lemma_lookup_cons(("host"@, t.host), pkvs, "host"@);
            lemma_lookup_cons(("host"@, t.host), pkvs, "port"@);
            lemma_lookup_cons(("host"@, t.host), pkvs, "noncefile"@);
            lemma_lookup_cons(("host"@, t.host), pkvs, "guid"@);
            assert(lookup(kvs, "host"@) == Option::Some(t.host));
            assert(lookup(kvs, "port"@) == Option::Some(dd));
            assert(lookup(kvs, "noncefile"@) is None);
            assert(lookup(kvs, "guid"@) == Option::Some(g));
            assert(valid_port(dd));
            assert(dec_val(dd) as u16 == t.port);
            assert(interp_tcp(kvs) == Result::<TransportV, AddressError>::Ok(a.transport));
        },
    }
}

/// What the broker advertises after resolving a well-formed address is
/// dialable verbatim: rendering the resolved address and parsing it back
/// yields exactly the resolved address.
pub proof fn lemma_resolved_dialable(a: BusAddressV, g: Seq<char>, n: int)
    requires
        addr_wf(a),
        valid_guid(g),
        0 <= n,
        a.transport matches TransportV::Tcp(t) ==> t.nonce_file is None,
    ensures
        parse_spec(addr_str(resolve_spec(a, g, n))) == Result::<BusAddressV, AddressError>::Ok(
            resolve_spec(a, g, n),
        ),
{
    let r = resolve_spec(a, g, n);
    lemma_render_words();
    lemma_dec_digits_val(n);
    lemma_digits_are_values(dec_digits(n));
    match a.transport {
        TransportV::Unix(UnixSocketV::Dir(d)) => {
            let p = dir_socket_path(d, n);
            assert forall|i: int| 0 <= i < p.len() implies #[trigger] p[i] != ',' by {
                if i < d.len() {
                    assert(p[i] == d[i]);
                } else if i < d.len() + 6 {
                    assert(p[i] == ("/dbus-"@)[i - d.len()]);
                } else {
                    assert(p[i] == dec_digits(n)[i - d.len() - 6]);
                }
            }
            assert(value_ok(p));
        },
        TransportV::Unix(UnixSocketV::TmpDir(d)) => {
            let p = dir_socket_path(d, n);
            assert forall|i: int| 0 <= i < p.len() implies #[trigger] p[i] != ',' by {
                if i < d.len() {
                    assert(p[i] == d[i]);
                } else if i < d.len() + 6 {
                    assert(p[i] == ("/dbus-"@)[i - d.len()]);
                } else {
                    assert(p[i] == dec_digits(n)[i - d.len() - 6]);
                }
            }
            assert(value_ok(p));
        },
        _ => {},
    }
    assert(addr_wf(r));
    lemma_canonical_round_trip(r);
}

/// A successfully parsed address carries a well-formed GUID, when it carries
/// one at all.
pub proof fn lemma_parse_spec_guid(s: Seq<char>)
    ensures
        parse_spec(s) matches Result::Ok(a) ==> guid_ok(a.guid),
{
    if parse_spec(s) is Ok {
        match first_index_of(s, ':') {
            Option::None => {},
            Option::Some(c) => {
                if c >= 1 {
                    match parse_opts(s.subrange(c + 1, s.len() as int)) {
                        Option::None => {},
                        Option::Some(kvs) => {
                            let g = lookup(kvs, "guid"@);
                            assert(guid_ok(g));
                            assert(parse_spec(s)->Ok_0.guid == g);
                        },
                    }
                }
            },
        }
    }
}

/// Parses an address specification. The result is exactly what the
/// specification-level parser [`parse_spec`] assigns to the input: a
/// [`BusAddress`] for a well-formed `unix:` or `tcp:` address, and otherwise
/// the matching [`AddressError`].
pub fn parse_address(s: &str) -> (r: Result<BusAddress, AddressError>)
    ensures
        match parse_spec(s@) {
            Result::Ok(a) => r matches Result::Ok(b) && b@ == a,
            Result::Err(e) => r matches Result::Err(e2) && e2 == e,
        },
{
    let len = s.unicode_len();
    let colon = match find_char(s, 0, len, ':') {
        None => {
            proof {
                lemma_first_index_of_none(s@, ':');
            }
            return Err(AddressError::Malformed);
        },
        Some(c) => {
            proof {
                lemma_first_index_of_is(s@, ':', c as int);
            }
            c
        },
    };
    if colon == 0 {
        return Err(AddressError::Malformed);
    }
    let slots = match parse_opts_exec(s, colon + 1) {
        None => {
            return Err(AddressError::Malformed);
        },
        Some(sl) => sl,
    };
    let ghost kvs = parse_opts(s@.subrange(colon + 1, len as int))->0;
    let ghost t = s@.subrange(0, colon as int);
    let guid: Option<String> = match slots.guid {
        Some(g) => {
            if !check_guid(g.as_str()) {
                return Err(AddressError::Malformed);
            }
            Some(g)
        },
        None => None,
    };
    if range_eq(s, 0, colon, "unix") {
        let sock = match (slots.path, slots.abstract_name, slots.dir, slots.tmpdir) {
            (Some(p), None, None, None) => UnixSocket::File(p),
            (None, Some(a), None, None) => UnixSocket::Abstract(a),
            (None, None, Some(d), None) => UnixSocket::Dir(d),
            (None, None, None, Some(td)) => UnixSocket::TmpDir(td),
            _ => {
                return Err(AddressError::Malformed);
            },
        };
        Ok(BusAddress { transport: Transport::Unix(sock), guid })
    } else if range_eq(s, 0, colon, "tcp") {
        let host = match slots.host {
            Some(h) => h,
            None => {
                return Err(AddressError::Malformed);
            },
        };
        let port = match slots.port {
            Some(p) => match parse_port(p.as_str()) {
                Some(v) => v,
                None => {
                    return Err(AddressError::Malformed);
                },
            },
            None => {
                return Err(AddressError::Malformed);
            },
        };
        Ok(
            BusAddress {
                transport: Transport::Tcp(TcpRef { host, port, nonce_file: slots.noncefile }),
                guid,
            },
        )
    } else {
        Err(AddressError::Unsupported)
    }
}

} // verus!
