//! The local bridge between the app and the userscript running in the
//! browser: URL helpers, request routing, the command queue that browser
//! pages poll, and the HTTP response heads.
//!
//! The listener, the sockets and the clock live with the caller; this module
//! decides what each request is answered and how the shared state changes.
use vstd::prelude::*;
use crate::logging::{find_char, index_of_char, lower_ascii_chars, lower_ascii_seq};
use crate::normalize::lit_string;
use crate::text::{
    chars_eq, chars_of, decimal, decimal_chars, ends_with, ends_with_str, eq_lit, extend_chars,
    extend_str, from_utf8_lossy, parse_usize, parsed_usize, replace_all, replace_all_chars,
    slice_vec, split_set, split_set_chars, split_words, str_eq, string_of, trim, trim_chars,
    utf8_lossy, words,
};

verus! {

/// Where the userscript is served.
pub const SCRIPT_PATH: &'static str = "/shuaforge-question-exporter.user.js";

/// Browser pages announce themselves here.
pub const BRIDGE_PING_PATH: &'static str = "/bridge/ping";

/// Browser pages fetch their next command here.
pub const BRIDGE_POLL_PATH: &'static str = "/bridge/poll";

/// Browser pages upload page snapshots here.
pub const BRIDGE_SNAPSHOT_PATH: &'static str = "/bridge/snapshot";

/// The port the bridge tries first.
pub const PREFERRED_PORT: u16 = 53391;

/// How long, in milliseconds, a page counts as connected after its last ping.
pub const CLIENT_TIMEOUT_MS: u64 = 20000;

/// The placeholder in the userscript source that receives the bridge URL.
pub const BASE_URL_PLACEHOLDER: &'static str = "__SHUAFORGE_BRIDGE_BASE_URL__";

// ------------------------------------------------------------------
// URLs
// ------------------------------------------------------------------
pub open spec fn install_url(script_url: Seq<char>) -> Seq<char> {
    "https://www.tampermonkey.net/script_installation.php#url="@ + script_url
}

/// The Tampermonkey page that installs the script served at `script_url`.
pub fn tampermonkey_install_url(script_url: &str) -> (r: String)
    ensures
        r@ == install_url(script_url@),
{
    let mut v = chars_of("https://www.tampermonkey.net/script_installation.php#url=");
    extend_str(&mut v, script_url);
    string_of(&v)
}

/// The bridge's base URL: the script URL without the script path.
pub open spec fn base_url_of(script_url: Seq<char>) -> Seq<char> {
    if ends_with(script_url, SCRIPT_PATH@) {
        script_url.take(script_url.len() - SCRIPT_PATH@.len())
    } else {
        script_url
    }
}

pub fn bridge_base_url(script_url: &str) -> (r: String)
    ensures
        r@ == base_url_of(script_url@),
{
    let s = chars_of(script_url);
    if ends_with_str(&s, SCRIPT_PATH) {
        let p = chars_of(SCRIPT_PATH);
        string_of(&slice_vec(&s, 0, s.len() - p.len()))
    } else {
        string_of(&s)
    }
}

// ------------------------------------------------------------------
// Request targets and query strings
// ------------------------------------------------------------------
/// A request target split at its first `?` into path and query.
pub open spec fn path_query(target: Seq<char>) -> (Seq<char>, Seq<char>) {
    match index_of_char(target, '?') {
        Some(i) => (target.take(i), target.skip(i + 1)),
        None => (target, Seq::empty()),
    }
}

pub fn split_path_query(target: &str) -> (r: (String, String))
    ensures
        r.0@ == path_query(target@).0,
        r.1@ == path_query(target@).1,
{
    let t = chars_of(target);
    match find_char(&t, '?') {
        Some(i) => {
            assert(i < t.len());
            (string_of(&slice_vec(&t, 0, i)), string_of(&slice_vec(&t, i + 1, t.len())))
        },
        None => (string_of(&t), String::new()),
    }
}

/// The value of an ASCII hexadecimal digit.
pub open spec fn hex_digit(b: u8) -> Option<u8> {
    if 48 <= b && b <= 57 {
        Some((b - 48) as u8)
    } else if 97 <= b && b <= 102 {
        Some((b - 97 + 10) as u8)
    } else if 65 <= b && b <= 70 {
        Some((b - 65 + 10) as u8)
    } else {
        None
    }
}

pub fn hex_value(byte: u8) -> (r: Option<u8>)
    ensures
        r == hex_digit(byte),
{
    if 48 <= byte && byte <= 57 {
        Some(byte - 48)
    } else if 97 <= byte && byte <= 102 {
        Some(byte - 97 + 10)
    } else if 65 <= byte && byte <= 70 {
        Some(byte - 65 + 10)
    } else {
        None
    }
}

/// Percent-decoding of query bytes: `%hh` gives the byte `hh`, `+` gives a
/// space.  A `%` not followed by two hex digits stays a `%`, and the (up
/// to two) bytes read after it are dropped.
pub open spec fn percent_decoded(s: Seq<u8>) -> Seq<u8>
    decreases s.len(),
{
    if s.len() == 0 {
        Seq::empty()
    } else if s[0] == 37 {
        if s.len() >= 3 && hex_digit(s[1]) is Some && hex_digit(s[2]) is Some {
            seq![(hex_digit(s[1])->0 * 16 + hex_digit(s[2])->0) as u8] + percent_decoded(s.skip(3))
        } else if s.len() >= 3 {
            seq![37u8] + percent_decoded(s.skip(3))
        } else {
            seq![37u8]
        }
    } else if s[0] == 43 {
        seq![32u8] + percent_decoded(s.skip(1))
    } else {
        seq![s[0]] + percent_decoded(s.skip(1))
    }
}

proof fn lemma_percent_decoded_skip(s: Seq<u8>, i: int, k: int)
    requires
        0 <= i,
        0 < k,
        i + k <= s.len(),
    ensures
        s.skip(i).skip(k) == s.skip(i + k),
{
    assert(s.skip(i).skip(k) =~= s.skip(i + k));
}

/// Decodes a percent-encoded query value, reading the result as UTF-8
/// with invalid sequences replaced.
pub fn percent_decode(value: &str) -> (r: String)
    ensures
        r@ == utf8_lossy(percent_decoded(vstd::utf8::encode_utf8(value@))),
        vstd::utf8::valid_utf8(percent_decoded(vstd::utf8::encode_utf8(value@))) ==> r@
            == vstd::utf8::decode_utf8(percent_decoded(vstd::utf8::encode_utf8(value@))),
{
    let input = value.as_bytes();
    let mut bytes: Vec<u8> = Vec::new();
    let mut i: usize = 0;
    assert(input@.skip(0) =~= input@);
    while i < input.len()
        invariant
            i <= input@.len(),
            bytes@ + percent_decoded(input@.skip(i as int)) == percent_decoded(input@),
        decreases input@.len() - i,
    {
        let ghost rest = input@.skip(i as int);
        let byte = input[i];
        assert(rest[0] == byte);
        if byte == 37 {
            if input.len() - i > 2 {
                let high = hex_value(input[i + 1]);
                let low = hex_value(input[i + 2]);
                assert(rest[1] == input@[i + 1]);
                assert(rest[2] == input@[i + 2]);
                proof {
                    lemma_percent_decoded_skip(input@, i as int, 3);
                }
                match (high, low) {
                    (Some(h), Some(l)) => {
                        bytes.push(h * 16 + l);
                    },
                    _ => {
                        bytes.push(37);
                    },
                }
                i = i + 3;
            } else {
                bytes.push(37);
                i = input.len();
                assert(input@.skip(i as int) =~= Seq::<u8>::empty());
            }
        } else if byte == 43 {
            proof {
                lemma_percent_decoded_skip(input@, i as int, 1);
            }
            bytes.push(32);
            i = i + 1;
        } else {
            proof {
                lemma_percent_decoded_skip(input@, i as int, 1);
            }
            bytes.push(byte);
            i = i + 1;
        }
        assert(bytes@ + percent_decoded(input@.skip(i as int)) =~= percent_decoded(input@));
    }
    assert(input@.skip(i as int) =~= Seq::<u8>::empty());
    assert(bytes@ =~= percent_decoded(input@));
    from_utf8_lossy(&bytes)
}

proof fn lemma_percent_encoded_front(b: Seq<u8>)
    requires
        b.len() > 0,
    ensures
        crate::markdown::percent_encoded(b) == crate::markdown::encoded_byte(b[0])
            + crate::markdown::percent_encoded(b.drop_first()),
    decreases b.len(),
{
    if b.len() > 1 {
        lemma_percent_encoded_front(b.drop_last());
        assert(b.drop_last().drop_first() =~= b.drop_first().drop_last());
        assert(b.drop_first().last() == b.last());
        assert(b.drop_last()[0] == b[0]);
    } else {
        assert(b.drop_first() =~= Seq::<u8>::empty());
        assert(b.drop_last() =~= Seq::<u8>::empty());
    }
}

pub open spec fn ascii_bytes(cs: Seq<char>) -> Seq<u8> {
    cs.map_values(|c: char| c as u8)
}

proof fn lemma_percent_encoded_ascii(b: Seq<u8>)
    ensures
        vstd::utf8::is_ascii_chars(crate::markdown::percent_encoded(b)),
    decreases b.len(),
{
    if b.len() > 0 {
        lemma_percent_encoded_ascii(b.drop_last());
        let e = crate::markdown::encoded_byte(b.last());
        let x = b.last();
        assert(vstd::utf8::is_ascii_chars(e)) by {
            if crate::markdown::unreserved_byte(x) {
                assert(e =~= seq![x as char]);
            } else {
                assert(e =~= seq!['%', crate::markdown::hex_upper(x / 16), crate::markdown::hex_upper(x % 16)]);
            }
        }
        let p = crate::markdown::percent_encoded(b.drop_last());
        assert forall|i: int| 0 <= i < (p + e).len() implies '\0' <= #[trigger] (p + e)[i] <= '\u{7f}' by {
            if i < p.len() {
                assert((p + e)[i] == p[i]);
            } else {
                assert((p + e)[i] == e[i - p.len()]);
            }
        }
    }
}

/// Decoding the encoding of bytes, read as ASCII bytes, gives them back.
proof fn lemma_percent_decoded_encoded(b: Seq<u8>)
    ensures
        percent_decoded(ascii_bytes(crate::markdown::percent_encoded(b))) == b,
    decreases b.len(),
{
    if b.len() > 0 {
        lemma_percent_encoded_front(b);
        lemma_percent_decoded_encoded(b.drop_first());
        let x = b[0];
        let e = crate::markdown::encoded_byte(x);
        let rest = crate::markdown::percent_encoded(b.drop_first());
        let all = ascii_bytes(e + rest);
        assert(ascii_bytes(crate::markdown::percent_encoded(b)) == all);
        if crate::markdown::unreserved_byte(x) {
            assert(e =~= seq![x as char]);
            assert(all[0] == x);
            assert(all.skip(1) =~= ascii_bytes(rest));
        } else {
            let h = crate::markdown::hex_upper(x / 16);
            let l = crate::markdown::hex_upper(x % 16);
            assert(e =~= seq!['%', h, l]);
            assert(all[0] == 37);
            assert(all[1] == h as u8 && all[2] == l as u8);
            assert(hex_digit(h as u8) == Some((x / 16) as u8));
            assert(hex_digit(l as u8) == Some((x % 16) as u8));
            assert(all.skip(3) =~= ascii_bytes(rest));
            assert(((x / 16) * 16 + x % 16) as u8 == x);
        }
        assert(percent_decoded(all) =~= seq![x] + b.drop_first());
    } else {
        assert(ascii_bytes(crate::markdown::percent_encoded(b)) =~= Seq::<u8>::empty());
    }
}

/// Percent-decoding undoes the URL-component encoder: decoding the
/// encoding of any text gives the text back.
pub proof fn law_percent_decode_undoes_encode(s: Seq<char>)
    ensures
        vstd::utf8::valid_utf8(
            percent_decoded(
                vstd::utf8::encode_utf8(crate::markdown::percent_encoded(vstd::utf8::encode_utf8(s))),
            ),
        ),
        vstd::utf8::decode_utf8(
            percent_decoded(
                vstd::utf8::encode_utf8(crate::markdown::percent_encoded(vstd::utf8::encode_utf8(s))),
            ),
        ) == s,
{
    let b = vstd::utf8::encode_utf8(s);
    let e = crate::markdown::percent_encoded(b);
    lemma_percent_encoded_ascii(b);
    vstd::utf8::is_ascii_chars_encode_utf8(e);
    assert(vstd::utf8::encode_utf8(e) =~= ascii_bytes(e));
    lemma_percent_decoded_encoded(b);
    vstd::utf8::encode_utf8_valid_utf8(s);
    vstd::utf8::encode_utf8_decode_utf8(s);
}

/// The raw value of `name` in one `key=value` piece of a query, split at
/// the piece's first `=`.
pub open spec fn param_value(part: Seq<char>, name: Seq<char>) -> Option<Seq<char>> {
    match index_of_char(part, '=') {
        Some(i) => if part.take(i) == name {
            Some(part.skip(i + 1))
        } else {
            None
        },
        None => None,
    }
}

/// The raw value of the first piece that names `name`.
pub open spec fn first_param(parts: Seq<Seq<char>>, name: Seq<char>) -> Option<Seq<char>>
    decreases parts.len(),
{
    if parts.len() == 0 {
        None
    } else {
        match param_value(parts[0], name) {
            Some(v) => Some(v),
            None => first_param(parts.drop_first(), name),
        }
    }
}

/// The decoded value of query parameter `name` (pieces split at `&`).
pub open spec fn query_value(query: Seq<char>, name: Seq<char>) -> Option<Seq<char>> {
    match first_param(split_set(query, seq!['&']), name) {
        Some(v) => Some(utf8_lossy(percent_decoded(vstd::utf8::encode_utf8(v)))),
        None => None,
    }
}

fn param_value_exec(part: &Vec<char>, name: &[char]) -> (r: Option<Vec<char>>)
    ensures
        match r {
            Some(v) => param_value(part@, name@) == Some(v@),
            None => param_value(part@, name@) is None,
        },
{
    match find_char(part, '=') {
        Some(i) => {
            assert(i < part.len());
            let key = slice_vec(part, 0, i);
            if chars_eq(&key, name) {
                Some(slice_vec(part, i + 1, part.len()))
            } else {
                None
            }
        },
        None => None,
    }
}

/// The percent-decoded value of query parameter `name`, if the query has it.
pub fn query_param(query: &str, name: &str) -> (r: Option<String>)
    ensures
        match r {
            Some(v) => query_value(query@, name@) == Some(v@),
            None => query_value(query@, name@) is None,
        },
{
    let q = chars_of(query);
    let n = chars_of(name);
    let amp = vec!['&'];
    let parts = split_set_chars(&q, &amp);
    assert(amp@ =~= seq!['&']);
    let ghost all = parts.deep_view();
    assert(all == split_set(query@, seq!['&']));
    let mut i: usize = 0;
    assert(all.skip(0) =~= all);
    while i < parts.len()
        invariant
            i <= parts@.len(),
            all == parts.deep_view(),
            all.len() == parts@.len(),
            first_param(all.skip(i as int), n@) == first_param(all, n@),
            all == split_set(query@, seq!['&']),
            n@ == name@,
        decreases parts@.len() - i,
    {
        let ghost rest = all.skip(i as int);
        assert(rest[0] == parts@[i as int]@);
        assert(rest.drop_first() =~= all.skip(i + 1));
        match param_value_exec(&parts[i], &n) {
            Some(v) => {
                assert(first_param(rest, n@) == Some(v@));
                let s = string_of(&v);
                let sv = s.as_str();
                assert(sv@ == v@);
                let d = percent_decode(sv);
                assert(query_value(query@, name@) == Some(d@));
                return Some(d);
            },
            None => {},
        }
        i = i + 1;
    }
    assert(all.skip(i as int) =~= Seq::<Seq<char>>::empty());
    None
}

// ------------------------------------------------------------------
// JSON strings
// ------------------------------------------------------------------
pub open spec fn json_escape_char(c: char) -> Seq<char> {
    if c == '\\' {
        seq!['\\', '\\']
    } else if c == '"' {
        seq!['\\', '"']
    } else if c == '\n' {
        seq!['\\', 'n']
    } else if c == '\r' {
        seq!['\\', 'r']
    } else {
        seq![c]
    }
}

/// Backslashes, double quotes, line feeds and carriage returns escaped.
pub open spec fn json_escaped(s: Seq<char>) -> Seq<char>
    decreases s.len(),
{
    if s.len() == 0 {
        Seq::empty()
    } else {
        json_escaped(s.drop_last()) + json_escape_char(s.last())
    }
}

fn push_json_escaped(out: &mut Vec<char>, value: &[char])
    ensures
        final(out)@ == old(out)@ + json_escaped(value@),
{
    let ghost start = out@;
    let mut i: usize = 0;
    while i < value.len()
        invariant
            i <= value@.len(),
            out@ == start + json_escaped(value@.take(i as int)),
        decreases value@.len() - i,
    {
        let c = value[i];
        let ghost before = out@;
        if c == '\\' {
            out.push('\\');
            out.push('\\');
        } else if c == '"' {
            out.push('\\');
            out.push('"');
        } else if c == '\n' {
            out.push('\\');
            out.push('n');
        } else if c == '\r' {
            out.push('\\');
            out.push('r');
        } else {
            out.push(c);
        }
        assert(out@ =~= before + json_escape_char(c));
        assert(value@.take(i + 1).drop_last() =~= value@.take(i as int));
        i = i + 1;
    }
    assert(value@.take(value@.len() as int) =~= value@);
}

pub fn json_escape(value: &str) -> (r: String)
    ensures
        r@ == json_escaped(value@),
{
    let v = chars_of(value);
    let mut out: Vec<char> = Vec::new();
    push_json_escaped(&mut out, &v);
    string_of(&out)
}

// ------------------------------------------------------------------
// Bridge state: connected pages, queued commands, pending snapshots
// ------------------------------------------------------------------
/// A command waiting for a browser page to fetch it.
pub struct BridgeCommand {
    pub id: String,
    pub command: String,
    pub selector: Option<String>,
    /// The page it is meant for; any page may take it when `None`.
    pub target_client_id: Option<String>,
}

pub struct CommandView {
    pub id: Seq<char>,
    pub command: Seq<char>,
    pub selector: Option<Seq<char>>,
    pub target: Option<Seq<char>>,
}

pub open spec fn opt_chars(o: Option<String>) -> Option<Seq<char>> {
    match o {
        Some(s) => Some(s@),
        None => None,
    }
}

impl View for BridgeCommand {
    type V = CommandView;

    open spec fn view(&self) -> CommandView {
        CommandView {
            id: self.id@,
            command: self.command@,
            selector: opt_chars(self.selector),
            target: opt_chars(self.target_client_id),
        }
    }
}

struct ClientSeen {
    id: String,
    seen_at: u64,
}

/// What the bridge shares between the app and the request handler.
pub struct BridgeState {
    commands: Vec<BridgeCommand>,
    clients: Vec<ClientSeen>,
    pending_snapshots: Option<usize>,
}

pub struct BridgeView {
    /// Queued commands, oldest first.
    pub commands: Seq<CommandView>,
    /// Known pages with the time (ms) of their last request.
    pub clients: Seq<(Seq<char>, u64)>,
    /// How many snapshot uploads the open request still expects.
    pub pending: Option<usize>,
}

impl View for BridgeState {
    type V = BridgeView;

    closed spec fn view(&self) -> BridgeView {
        BridgeView {
            commands: self.commands@.map_values(|c: BridgeCommand| c@),
            clients: self.clients@.map_values(|c: ClientSeen| (c.id@, c.seen_at)),
            pending: self.pending_snapshots,
        }
    }
}

/// No page is listed twice.
pub open spec fn distinct_clients(clients: Seq<(Seq<char>, u64)>) -> bool {
    forall|i: int, j: int|
        0 <= i < j < clients.len() ==> #[trigger] clients[i].0 != #[trigger] clients[j].0
}

/// The position of page `id` in the list.
pub open spec fn client_index(clients: Seq<(Seq<char>, u64)>, id: Seq<char>) -> Option<int>
    decreases clients.len(),
{
    if clients.len() == 0 {
        None
    } else if clients.last().0 == id {
        Some(clients.len() - 1)
    } else {
        client_index(clients.drop_last(), id)
    }
}

/// The page list after `id` was seen at `now`.
pub open spec fn with_client(clients: Seq<(Seq<char>, u64)>, id: Seq<char>, now: u64) -> Seq<
    (Seq<char>, u64),
> {
    match client_index(clients, id) {
        Some(k) => clients.update(k, (id, now)),
        None => clients.push((id, now)),
    }
}

/// A page seen at `seen` still counts as connected at `now`.
pub open spec fn is_fresh(now: u64, seen: u64) -> bool {
    (if now >= seen {
        now - seen
    } else {
        0
    }) < CLIENT_TIMEOUT_MS
}

/// The pages still connected at `now`, in their order.
pub open spec fn fresh_clients(clients: Seq<(Seq<char>, u64)>, now: u64) -> Seq<(Seq<char>, u64)>
    decreases clients.len(),
{
    if clients.len() == 0 {
        clients
    } else {
        let r = fresh_clients(clients.drop_last(), now);
        if is_fresh(now, clients.last().1) {
            r.push(clients.last())
        } else {
            r
        }
    }
}

proof fn lemma_fresh_members(cs: Seq<(Seq<char>, u64)>, now: u64)
    ensures
        forall|x: int|
            0 <= x < fresh_clients(cs, now).len() ==> exists|j: int|
                0 <= j < cs.len() && #[trigger] fresh_clients(cs, now)[x] == cs[j],
    decreases cs.len(),
{
    if cs.len() > 0 {
        let d = cs.drop_last();
        lemma_fresh_members(d, now);
        let f = fresh_clients(cs, now);
        assert forall|x: int| 0 <= x < f.len() implies exists|j: int|
            0 <= j < cs.len() && #[trigger] f[x] == cs[j] by {
            if x < fresh_clients(d, now).len() {
                let j = choose|j: int| 0 <= j < d.len() && fresh_clients(d, now)[x] == d[j];
                assert(d[j] == cs[j]);
            } else {
                assert(f[x] == cs[cs.len() - 1]);
            }
        }
    }
}

proof fn lemma_fresh_distinct(cs: Seq<(Seq<char>, u64)>, now: u64)
    requires
        distinct_clients(cs),
    ensures
        distinct_clients(fresh_clients(cs, now)),
    decreases cs.len(),
{
    if cs.len() > 0 {
        let d = cs.drop_last();
        assert(distinct_clients(d)) by {
            assert forall|i: int, j: int| 0 <= i < j < d.len() implies #[trigger] d[i].0
                != #[trigger] d[j].0 by {
                assert(d[i] == cs[i] && d[j] == cs[j]);
            }
        }
        lemma_fresh_distinct(d, now);
        lemma_fresh_members(d, now);
        let f = fresh_clients(cs, now);
        let fd = fresh_clients(d, now);
        if is_fresh(now, cs.last().1) {
            assert forall|i: int, j: int| 0 <= i < j < f.len() implies #[trigger] f[i].0
                != #[trigger] f[j].0 by {
                if j == fd.len() {
                    let k = choose|k: int| 0 <= k < d.len() && fd[i] == d[k];
                    assert(d[k] == cs[k]);
                    assert(cs[k].0 != cs[cs.len() - 1].0);
                } else {
                    assert(f[i] == fd[i] && f[j] == fd[j]);
                }
            }
        }
    }
}

pub open spec fn client_ids(clients: Seq<(Seq<char>, u64)>) -> Seq<Seq<char>> {
    clients.map_values(|c: (Seq<char>, u64)| c.0)
}

/// A command may go to `client`: it targets no page, or that page.
pub open spec fn deliverable(c: CommandView, client: Option<Seq<char>>) -> bool {
    match c.target {
        None => true,
        Some(t) => client == Some(t),
    }
}

/// The first queued command that may go to `client`.
pub open spec fn first_deliverable(cmds: Seq<CommandView>, client: Option<Seq<char>>) -> Option<
    int,
>
    decreases cmds.len(),
{
    if cmds.len() == 0 {
        None
    } else if deliverable(cmds[0], client) {
        Some(0)
    } else {
        match first_deliverable(cmds.drop_first(), client) {
            Some(k) => Some(k + 1),
            None => None,
        }
    }
}

/// The JSON a page receives for a command.
pub open spec fn command_json(c: CommandView) -> Seq<char> {
    "{\"id\":\""@ + json_escaped(c.id) + "\",\"command\":\""@ + json_escaped(c.command)
        + "\",\"selector\":"@ + match c.selector {
        Some(sel) => "\""@ + json_escaped(sel) + "\""@,
        None => "null"@,
    } + "}"@
}

/// The JSON a page receives when nothing is queued for it.
pub open spec fn no_command_json() -> Seq<char> {
    "{\"command\":\"none\"}"@
}

/// The command that asks page `target` for a snapshot.
pub open spec fn snapshot_command(batch: Seq<char>, index: nat, target: Seq<char>) -> CommandView {
    CommandView {
        id: batch + "-"@ + crate::text::decimal(index),
        command: "snapshot"@,
        selector: None,
        target: Some(target),
    }
}

pub open spec fn snapshot_commands(batch: Seq<char>, targets: Seq<Seq<char>>) -> Seq<CommandView> {
    Seq::new(targets.len(), |i: int| snapshot_command(batch, i as nat, targets[i]))
}

/// The error a snapshot request gets when no page is connected.
pub open spec fn no_page_message() -> Seq<char> {
    "未发现已打开的题库页面。请打开装有 ShuaForge 油猴脚本的题库/解析页面，脚本会自动连接。"@
}

impl BridgeState {
    pub closed spec fn wf(&self) -> bool {
        distinct_clients(self@.clients)
    }

    pub fn new() -> (r: BridgeState)
        ensures
            r.wf(),
            r@.commands == Seq::<CommandView>::empty(),
            r@.clients == Seq::<(Seq<char>, u64)>::empty(),
            r@.pending is None,
    {
        let r = BridgeState { commands: Vec::new(), clients: Vec::new(), pending_snapshots: None };
        assert(r@.commands =~= Seq::<CommandView>::empty());
        assert(r@.clients =~= Seq::<(Seq<char>, u64)>::empty());
        r
    }

    /// Notes that page `client_id` made a request at `now_ms`.
    pub fn register_client(&mut self, client_id: String, now_ms: u64)
        requires
            old(self).wf(),
        ensures
            final(self).wf(),
            final(self)@.clients == with_client(old(self)@.clients, client_id@, now_ms),
            final(self)@.commands == old(self)@.commands,
            final(self)@.pending == old(self)@.pending,
    {
        let ghost cs = self@.clients;
        let mut i: usize = self.clients.len();
        let mut found: Option<usize> = None;
        assert(cs.take(cs.len() as int) =~= cs);
        while i > 0 && found.is_none()
            invariant
                i <= self.clients@.len(),
                self@.clients == cs,
                cs.len() == self.clients@.len(),
                found is None ==> client_index(cs.take(i as int), client_id@) == client_index(
                    cs,
                    client_id@,
                ),
                found is Some ==> client_index(cs, client_id@) == Some(found->0 as int) && found->0
                    < cs.len(),
            decreases i,
        {
            let ghost t = cs.take(i as int);
            assert(t.drop_last() =~= cs.take(i - 1));
            assert(t.last() == cs[i - 1]);
            if str_eq(self.clients[i - 1].id.as_str(), client_id.as_str()) {
                found = Some(i - 1);
            }
            i = i - 1;
        }
        proof {
            if found is None {
                assert(cs.take(0) =~= Seq::<(Seq<char>, u64)>::empty());
            }
        }
        match found {
            Some(k) => {
                let ghost before = self.clients@;
                proof {
                    lemma_client_index_some(cs, client_id@);
                }
                self.clients.set(k, ClientSeen { id: client_id, seen_at: now_ms });
                assert(self@.clients =~= cs.update(k as int, (client_id@, now_ms)));
                assert(forall|a: int| 0 <= a < cs.len() ==> #[trigger] self@.clients[a].0 == cs[a].0);
            },
            None => {
                self.clients.push(ClientSeen { id: client_id, seen_at: now_ms });
                assert(self@.clients =~= cs.push((client_id@, now_ms)));
                proof {
                    assert forall|a: int, b: int|
                        0 <= a < b < self@.clients.len() implies #[trigger] self@.clients[a].0
                        != #[trigger] self@.clients[b].0 by {
                        if b == cs.len() {
                            lemma_client_index_none(cs, client_id@, a);
                        }
                    }
                }
            },
        }
    }
}

proof fn lemma_client_index_some(cs: Seq<(Seq<char>, u64)>, id: Seq<char>)
    ensures
        match client_index(cs, id) {
            Some(k) => 0 <= k < cs.len() && cs[k].0 == id,
            None => true,
        },
    decreases cs.len(),
{
    if cs.len() > 0 && cs.last().0 != id {
        lemma_client_index_some(cs.drop_last(), id);
    }
}

proof fn lemma_client_index_none(cs: Seq<(Seq<char>, u64)>, id: Seq<char>, a: int)
    requires
        client_index(cs, id) is None,
        0 <= a < cs.len(),
    ensures
        cs[a].0 != id,
    decreases cs.len(),
{
    if a < cs.len() - 1 {
        assert(cs.drop_last()[a] == cs[a]);
        lemma_client_index_none(cs.drop_last(), id, a);
    }
}

impl BridgeState {
    /// Forgets pages that have not been seen for the timeout and lists the
    /// ones left.
    pub fn registered_client_ids(&mut self, now_ms: u64) -> (r: Vec<String>)
        requires
            old(self).wf(),
        ensures
            final(self).wf(),
            final(self)@.clients == fresh_clients(old(self)@.clients, now_ms),
            final(self)@.commands == old(self)@.commands,
            final(self)@.pending == old(self)@.pending,
            r.deep_view() == client_ids(final(self)@.clients),
    {
        let ghost cs = self@.clients;
        let mut kept: Vec<ClientSeen> = Vec::new();
        let mut ids: Vec<String> = Vec::new();
        let mut i: usize = 0;
        while i < self.clients.len()
            invariant
                i <= self.clients@.len(),
                self@.clients == cs,
                cs.len() == self.clients@.len(),
                kept@.map_values(|c: ClientSeen| (c.id@, c.seen_at)) == fresh_clients(
                    cs.take(i as int),
                    now_ms,
                ),
                ids.deep_view() == client_ids(fresh_clients(cs.take(i as int), now_ms)),
            decreases self.clients@.len() - i,
        {
            let ghost t1 = cs.take(i + 1);
            assert(t1.drop_last() =~= cs.take(i as int));
            assert(t1.last() == cs[i as int]);
            let seen = self.clients[i].seen_at;
            let age: u64 = if now_ms >= seen {
                now_ms - seen
            } else {
                0
            };
            if age < CLIENT_TIMEOUT_MS {
                let ghost kv = kept@.map_values(|c: ClientSeen| (c.id@, c.seen_at));
                let ghost iv = ids.deep_view();
                let id = self.clients[i].id.clone();
                ids.push(id.clone());
                kept.push(ClientSeen { id, seen_at: seen });
                assert(kept@.map_values(|c: ClientSeen| (c.id@, c.seen_at)) =~= kv.push(cs[i as int]));
                assert(ids.deep_view() =~= iv.push(cs[i as int].0));
                assert(client_ids(fresh_clients(t1, now_ms)) =~= client_ids(fresh_clients(cs.take(i as int), now_ms)).push(cs[i as int].0));
            }
            i = i + 1;
        }
        assert(cs.take(cs.len() as int) =~= cs);
        self.clients = kept;
        proof {
            lemma_fresh_distinct(cs, now_ms);
        }
        ids
    }
}

pub open spec fn opt_str(o: Option<&str>) -> Option<Seq<char>> {
    match o {
        Some(s) => Some(s@),
        None => None,
    }
}

fn deliverable_exec(c: &BridgeCommand, client_id: Option<&str>) -> (r: bool)
    ensures
        r == deliverable(c@, opt_str(client_id)),
{
    match &c.target_client_id {
        None => true,
        Some(t) => match client_id {
            Some(id) => str_eq(t.as_str(), id),
            None => false,
        },
    }
}

fn command_json_exec(c: &BridgeCommand) -> (r: String)
    ensures
        r@ == command_json(c@),
{
    let mut out = chars_of("{\"id\":\"");
    push_json_escaped(&mut out, &chars_of(c.id.as_str()));
    extend_str(&mut out, "\",\"command\":\"");
    push_json_escaped(&mut out, &chars_of(c.command.as_str()));
    extend_str(&mut out, "\",\"selector\":");
    match &c.selector {
        Some(sel) => {
            extend_str(&mut out, "\"");
            push_json_escaped(&mut out, &chars_of(sel.as_str()));
            extend_str(&mut out, "\"");
        },
        None => {
            extend_str(&mut out, "null");
        },
    }
    extend_str(&mut out, "}");
    string_of(&out)
}

proof fn lemma_first_deliverable(cmds: Seq<CommandView>, client: Option<Seq<char>>, i: int)
    requires
        0 <= i <= cmds.len(),
        forall|j: int| 0 <= j < i ==> !deliverable(#[trigger] cmds[j], client),
        i == cmds.len() || deliverable(cmds[i], client),
    ensures
        first_deliverable(cmds, client) == if i == cmds.len() {
            None::<int>
        } else {
            Some(i)
        },
    decreases i,
{
    if i > 0 {
        assert forall|j: int| 0 <= j < i - 1 implies !deliverable(
            #[trigger] cmds.drop_first()[j],
            client,
        ) by {
            assert(cmds.drop_first()[j] == cmds[j + 1]);
        }
        if i < cmds.len() {
            assert(cmds.drop_first()[i - 1] == cmds[i]);
        }
        lemma_first_deliverable(cmds.drop_first(), client, i - 1);
    }
}

/// The snapshot commands of one request, for pages listed once each,
/// reach every page exactly once: each page's first deliverable command
/// is its own snapshot command, and once that is handed out none is left
/// for it; a page not asked gets none of them.
pub proof fn law_snapshot_commands_delivered_once(batch: Seq<char>, targets: Seq<Seq<char>>, other: Seq<char>)
    requires
        forall|i: int, j: int| 0 <= i < j < targets.len() ==> #[trigger] targets[i] != #[trigger] targets[j],
        !targets.contains(other),
    ensures
        forall|k: int|
            0 <= k < targets.len() ==> first_deliverable(snapshot_commands(batch, targets), Some(
                #[trigger] targets[k],
            )) == Some(k) && snapshot_commands(batch, targets)[k] == snapshot_command(
                batch,
                k as nat,
                targets[k],
            ) && first_deliverable(snapshot_commands(batch, targets).remove(k), Some(targets[k])) is None,
        first_deliverable(snapshot_commands(batch, targets), Some(other)) is None,
{
    let cmds = snapshot_commands(batch, targets);
    assert forall|k: int| 0 <= k < targets.len() implies first_deliverable(cmds, Some(
        #[trigger] targets[k],
    )) == Some(k) && cmds[k] == snapshot_command(batch, k as nat, targets[k]) && first_deliverable(
        cmds.remove(k),
        Some(targets[k]),
    ) is None by {
        let c = Some(targets[k]);
        assert forall|j: int| 0 <= j < k implies !deliverable(#[trigger] cmds[j], c) by {
            assert(cmds[j].target == Some(targets[j]));
        }
        lemma_first_deliverable(cmds, c, k);
        let rm = cmds.remove(k);
        assert forall|j: int| 0 <= j < rm.len() implies !deliverable(#[trigger] rm[j], c) by {
            if j < k {
                assert(rm[j] == cmds[j]);
                assert(cmds[j].target == Some(targets[j]));
            } else {
                assert(rm[j] == cmds[j + 1]);
                assert(cmds[j + 1].target == Some(targets[j + 1]));
            }
        }
        lemma_first_deliverable(rm, c, rm.len() as int);
    }
    assert forall|j: int| 0 <= j < cmds.len() implies !deliverable(#[trigger] cmds[j], Some(other)) by {
        assert(cmds[j].target == Some(targets[j]));
        assert(targets.contains(targets[j]));
    }
    lemma_first_deliverable(cmds, Some(other), cmds.len() as int);
}

impl BridgeState {
    /// Asks every connected page for a snapshot of itself.  Gives how many
    /// uploads to expect, or an error when no page is connected.
    pub fn request_page_snapshot(&mut self, now_ms: u64, batch_id: &str) -> (r: Result<
        usize,
        String,
    >)
        requires
            old(self).wf(),
        ensures
            final(self).wf(),
            distinct_clients(final(self)@.clients),
            final(self)@.clients == fresh_clients(old(self)@.clients, now_ms),
            match r {
                Ok(n) => {
                    &&& n > 0
                    &&& n == final(self)@.clients.len()
                    &&& final(self)@.pending == Some(n)
                    &&& final(self)@.commands == old(self)@.commands + snapshot_commands(
                        batch_id@,
                        client_ids(final(self)@.clients),
                    )
                },
                Err(e) => {
                    &&& final(self)@.clients.len() == 0
                    &&& e@ == no_page_message()
                    &&& final(self)@.commands == old(self)@.commands
                    &&& final(self)@.pending == old(self)@.pending
                },
            },
    {
        let ids = self.registered_client_ids(now_ms);
        if ids.len() == 0 {
            assert(client_ids(self@.clients).len() == 0);
            assert(self@.clients.len() == 0);
            let e = lit_string("未发现已打开的题库页面。请打开装有 ShuaForge 油猴脚本的题库/解析页面，脚本会自动连接。");
            assert(e@ == no_page_message());
            return Err(e);
        }
        let ghost targets = ids.deep_view();
        let ghost start = self@.commands;
        self.pending_snapshots = Some(ids.len());
        let batch = chars_of(batch_id);
        let mut i: usize = 0;
        while i < ids.len()
            invariant
                i <= ids@.len(),
                targets == ids.deep_view(),
                targets.len() == ids@.len(),
                batch@ == batch_id@,
                self.wf(),
                self@.commands == start + snapshot_commands(batch_id@, targets.take(i as int)),
                self@.clients == fresh_clients(old(self)@.clients, now_ms),
                self@.pending == Some(ids.len()),
            decreases ids@.len() - i,
        {
            let mut id = batch.clone();
            extend_str(&mut id, "-");
            let digits = crate::text::decimal_chars(i as u64);
            extend_chars(&mut id, &digits);
            let ghost before = self@.commands;
            self.commands.push(BridgeCommand {
                id: string_of(&id),
                command: lit_string("snapshot"),
                selector: None,
                target_client_id: Some(ids[i].clone()),
            });
            assert(targets[i as int] == ids@[i as int]@);
            assert(snapshot_commands(batch_id@, targets.take(i + 1)) =~= snapshot_commands(
                batch_id@,
                targets.take(i as int),
            ).push(snapshot_command(batch_id@, i as nat, targets[i as int])));
            assert(self@.commands =~= before.push(snapshot_command(batch_id@, i as nat, targets[i as int])));
            i = i + 1;
        }
        assert(targets.take(targets.len() as int) =~= targets);
        Ok(ids.len())
    }

    /// Hands page `client_id` the first queued command meant for it (or for
    /// any page), removing it from the queue.
    pub fn next_bridge_command_json(&mut self, client_id: Option<&str>) -> (r: String)
        requires
            old(self).wf(),
        ensures
            final(self).wf(),
            final(self)@.clients == old(self)@.clients,
            final(self)@.pending == old(self)@.pending,
            match first_deliverable(old(self)@.commands, opt_str(client_id)) {
                Some(k) => {
                    &&& 0 <= k < old(self)@.commands.len()
                    &&& final(self)@.commands == old(self)@.commands.remove(k)
                    &&& r@ == command_json(old(self)@.commands[k])
                },
                None => {
                    &&& final(self)@.commands == old(self)@.commands
                    &&& r@ == no_command_json()
                },
            },
    {
        let ghost cmds = self@.commands;
        let mut i: usize = 0;
        let mut found = false;
        while i < self.commands.len() && !found
            invariant
                i <= self.commands@.len(),
                self@.commands == cmds,
                cmds.len() == self.commands@.len(),
                forall|j: int| 0 <= j < i ==> !deliverable(#[trigger] cmds[j], opt_str(client_id)),
                found ==> i < cmds.len() && deliverable(cmds[i as int], opt_str(client_id)),
            decreases self.commands@.len() - i + (if found { 0int } else { 1int }),
        {
            assert(cmds[i as int] == self.commands@[i as int]@);
            if deliverable_exec(&self.commands[i], client_id) {
                found = true;
            } else {
                i = i + 1;
            }
        }
        proof {
            lemma_first_deliverable(cmds, opt_str(client_id), i as int);
        }
        if found {
            let c = self.commands.remove(i);
            assert(self@.commands =~= cmds.remove(i as int));
            command_json_exec(&c)
        } else {
            lit_string("{\"command\":\"none\"}")
        }
    }

    /// Whether a snapshot request still awaits uploads.
    pub fn is_collecting_snapshots(&self) -> (r: bool)
        ensures
            r == self@.pending is Some,
    {
        self.pending_snapshots.is_some()
    }

    /// Records one uploaded snapshot.  Gives whether a snapshot request was
    /// open to receive it; the request closes once all expected uploads came.
    pub fn accept_snapshot(&mut self) -> (r: bool)
        requires
            old(self).wf(),
        ensures
            final(self).wf(),
            final(self)@.clients == old(self)@.clients,
            final(self)@.commands == old(self)@.commands,
            r == old(self)@.pending is Some,
            final(self)@.pending == match old(self)@.pending {
                Some(n) => if n <= 1 {
                    None
                } else {
                    Some((n - 1) as usize)
                },
                None => None,
            },
    {
        match self.pending_snapshots {
            Some(n) => {
                let left: usize = if n == 0 {
                    0
                } else {
                    n - 1
                };
                if left == 0 {
                    self.pending_snapshots = None;
                } else {
                    self.pending_snapshots = Some(left);
                }
                true
            },
            None => false,
        }
    }
}

// ------------------------------------------------------------------
// Requests
// ------------------------------------------------------------------
/// The method and target of an HTTP request line; `GET` and `/` stand in
/// for missing words.
pub open spec fn request_parts(line: Seq<char>) -> (Seq<char>, Seq<char>) {
    let w = words(line);
    (
        if w.len() > 0 {
            w[0]
        } else {
            "GET"@
        },
        if w.len() > 1 {
            w[1]
        } else {
            "/"@
        },
    )
}

pub fn parse_request_line(line: &str) -> (r: (String, String))
    ensures
        r.0@ == request_parts(line@).0,
        r.1@ == request_parts(line@).1,
{
    let l = chars_of(line);
    let w = split_words(&l);
    let method = if w.len() > 0 {
        string_of(&w[0])
    } else {
        lit_string("GET")
    };
    let target = if w.len() > 1 {
        string_of(&w[1])
    } else {
        lit_string("/")
    };
    (method, target)
}

/// For a `Content-Length` header line (name compared ignoring ASCII case),
/// its value, 0 where it is not a number; `None` for other lines.
pub open spec fn content_length_of(line: Seq<char>) -> Option<usize> {
    match index_of_char(line, ':') {
        Some(i) => if lower_ascii_seq(line.take(i)) == "content-length"@ {
            Some(
                match parsed_usize(trim(line.skip(i + 1))) {
                    Some(n) => n,
                    None => 0,
                },
            )
        } else {
            None
        },
        None => None,
    }
}

pub fn content_length_header(line: &str) -> (r: Option<usize>)
    ensures
        r == content_length_of(line@),
{
    let l = chars_of(line);
    match find_char(&l, ':') {
        Some(i) => {
            assert(i < l.len());
            let name = lower_ascii_chars(&slice_vec(&l, 0, i));
            if eq_lit(&name, "content-length") {
                let value = trim_chars(&slice_vec(&l, i + 1, l.len()));
                match parse_usize(&value) {
                    Some(n) => Some(n),
                    None => Some(0),
                }
            } else {
                None
            }
        },
        None => None,
    }
}

/// What a request is answered with.
#[derive(Debug, Clone, Copy, PartialEq, Eq, Structural)]
pub enum Route {
    /// CORS preflight: an empty `204`.
    Preflight,
    /// A page uploads a snapshot.
    SnapshotUpload,
    /// A page announces itself.
    Ping,
    /// A page asks for its next command.
    Poll,
    /// The userscript itself.
    Script,
    /// Anything else is sent to the script.
    Redirect,
}

pub open spec fn route_of(method: Seq<char>, path: Seq<char>) -> Route {
    if method == "OPTIONS"@ {
        Route::Preflight
    } else if method == "POST"@ && path == BRIDGE_SNAPSHOT_PATH@ {
        Route::SnapshotUpload
    } else if path == BRIDGE_PING_PATH@ {
        Route::Ping
    } else if path == BRIDGE_POLL_PATH@ {
        Route::Poll
    } else if path == SCRIPT_PATH@ {
        Route::Script
    } else {
        Route::Redirect
    }
}

pub fn route(method: &str, path: &str) -> (r: Route)
    ensures
        r == route_of(method@, path@),
{
    if str_eq(method, "OPTIONS") {
        Route::Preflight
    } else if str_eq(method, "POST") && str_eq(path, BRIDGE_SNAPSHOT_PATH) {
        Route::SnapshotUpload
    } else if str_eq(path, BRIDGE_PING_PATH) {
        Route::Ping
    } else if str_eq(path, BRIDGE_POLL_PATH) {
        Route::Poll
    } else if str_eq(path, SCRIPT_PATH) {
        Route::Script
    } else {
        Route::Redirect
    }
}

// ------------------------------------------------------------------
// Responses
// ------------------------------------------------------------------
pub open spec fn cors_headers() -> Seq<char> {
    "Access-Control-Allow-Origin: *\r\nAccess-Control-Allow-Methods: GET, POST, HEAD, OPTIONS\r\nAccess-Control-Allow-Headers: *\r\nAccess-Control-Allow-Private-Network: true\r\nCross-Origin-Resource-Policy: cross-origin\r\n"@
}

/// The head of a response with a body of `length` bytes; a `302` also
/// points at the script.
pub open spec fn response_head_of(status: Seq<char>, content_type: Seq<char>, length: nat) -> Seq<
    char,
> {
    "HTTP/1.1 "@ + status + "\r\n"@ + (if status == "302 Found"@ {
        "Location: "@ + SCRIPT_PATH@ + "\r\n"@
    } else {
        Seq::empty()
    }) + "Content-Type: "@ + content_type + "\r\nContent-Length: "@ + decimal(length)
        + "\r\nCache-Control: no-store, no-cache, must-revalidate, max-age=0\r\nPragma: no-cache\r\nExpires: 0\r\n"@
        + cors_headers() + "X-Content-Type-Options: nosniff\r\nConnection: close\r\n\r\n"@
}

pub fn response_head(status: &str, content_type: &str, content_length: usize) -> (r: String)
    ensures
        r@ == response_head_of(status@, content_type@, content_length as nat),
{
    let mut out = chars_of("HTTP/1.1 ");
    extend_str(&mut out, status);
    extend_str(&mut out, "\r\n");
    if str_eq(status, "302 Found") {
        extend_str(&mut out, "Location: ");
        extend_str(&mut out, SCRIPT_PATH);
        extend_str(&mut out, "\r\n");
    }
    extend_str(&mut out, "Content-Type: ");
    extend_str(&mut out, content_type);
    extend_str(&mut out, "\r\nContent-Length: ");
    let digits = decimal_chars(content_length as u64);
    extend_chars(&mut out, &digits);
    extend_str(
        &mut out,
        "\r\nCache-Control: no-store, no-cache, must-revalidate, max-age=0\r\nPragma: no-cache\r\nExpires: 0\r\n",
    );
    extend_str(
        &mut out,
        "Access-Control-Allow-Origin: *\r\nAccess-Control-Allow-Methods: GET, POST, HEAD, OPTIONS\r\nAccess-Control-Allow-Headers: *\r\nAccess-Control-Allow-Private-Network: true\r\nCross-Origin-Resource-Policy: cross-origin\r\n",
    );
    extend_str(&mut out, "X-Content-Type-Options: nosniff\r\nConnection: close\r\n\r\n");
    string_of(&out)
}

/// The head of a response without a body.
pub open spec fn empty_response_head_of(status: Seq<char>) -> Seq<char> {
    "HTTP/1.1 "@ + status + "\r\nContent-Length: 0\r\n"@ + cors_headers()
        + "Connection: close\r\n\r\n"@
}

pub fn empty_response_head(status: &str) -> (r: String)
    ensures
        r@ == empty_response_head_of(status@),
{
    let mut out = chars_of("HTTP/1.1 ");
    extend_str(&mut out, status);
    extend_str(&mut out, "\r\nContent-Length: 0\r\n");
    extend_str(
        &mut out,
        "Access-Control-Allow-Origin: *\r\nAccess-Control-Allow-Methods: GET, POST, HEAD, OPTIONS\r\nAccess-Control-Allow-Headers: *\r\nAccess-Control-Allow-Private-Network: true\r\nCross-Origin-Resource-Policy: cross-origin\r\n",
    );
    extend_str(&mut out, "Connection: close\r\n\r\n");
    string_of(&out)
}

/// The userscript as served: the placeholder replaced by the bridge URL
/// (a URL on port 0 while the bridge has none).
pub open spec fn served_script(template: Seq<char>, base_url: Option<Seq<char>>) -> Seq<char> {
    replace_all(
        template,
        BASE_URL_PLACEHOLDER@,
        match base_url {
            Some(u) => u,
            None => "http://127.0.0.1:0"@,
        },
    )
}

pub fn userscript_source(template: &str, base_url: Option<&str>) -> (r: String)
    ensures
        r@ == served_script(template@, opt_str(base_url)),
{
    let t = chars_of(template);
    let from = chars_of(BASE_URL_PLACEHOLDER);
    let to = match base_url {
        Some(u) => chars_of(u),
        None => chars_of("http://127.0.0.1:0"),
    };
    string_of(&replace_all_chars(&t, &from, &to))
}

/// The bridge's base URL once the server answers at `script_url`; the
/// server's error is passed on.
pub fn ensure_bridge_running(script_url: Result<String, String>) -> (r: Result<String, String>)
    ensures
        match (script_url, r) {
            (Ok(u), Ok(b)) => b@ == base_url_of(u@),
            (Err(e), Err(f)) => f@ == e@,
            _ => false,
        },
{
    match script_url {
        Ok(u) => Ok(bridge_base_url(u.as_str())),
        Err(e) => Err(e),
    }
}

// ------------------------------------------------------------------
// Laws
// ------------------------------------------------------------------
proof fn lemma_fresh_keeps(cs: Seq<(Seq<char>, u64)>, now: u64, k: int)
    requires
        0 <= k < cs.len(),
        is_fresh(now, cs[k].1),
    ensures
        client_ids(fresh_clients(cs, now)).contains(cs[k].0),
    decreases cs.len(),
{
    let f = fresh_clients(cs, now);
    if k == cs.len() - 1 {
        assert(f.last() == cs[k]);
        assert(client_ids(f)[f.len() - 1] == cs[k].0);
    } else {
        let d = cs.drop_last();
        assert(d[k] == cs[k]);
        lemma_fresh_keeps(d, now, k);
        let fd = fresh_clients(d, now);
        let j = choose|j: int| 0 <= j < client_ids(fd).len() && client_ids(fd)[j] == cs[k].0;
        assert(client_ids(f)[j] == client_ids(fd)[j]);
    }
}

/// A page that has just made a request is among the connected pages listed
/// at that moment.
pub proof fn law_registered_page_is_listed(clients: Seq<(Seq<char>, u64)>, id: Seq<char>, now: u64)
    ensures
        client_ids(fresh_clients(with_client(clients, id, now), now)).contains(id),
{
    let w = with_client(clients, id, now);
    lemma_client_index_some(clients, id);
    match client_index(clients, id) {
        Some(k) => {
            assert(w[k] == (id, now));
            lemma_fresh_keeps(w, now, k);
        },
        None => {
            assert(w[w.len() - 1] == (id, now));
            lemma_fresh_keeps(w, now, w.len() - 1);
        },
    }
}

/// A page is handed only a command meant for it or for any page, and it is
/// the oldest such command in the queue.
pub proof fn law_command_goes_to_its_target(cmds: Seq<CommandView>, client: Option<Seq<char>>)
    ensures
        match first_deliverable(cmds, client) {
            Some(k) => {
                &&& 0 <= k < cmds.len()
                &&& deliverable(cmds[k], client)
                &&& forall|j: int| 0 <= j < k ==> !deliverable(#[trigger] cmds[j], client)
            },
            None => forall|j: int| 0 <= j < cmds.len() ==> !deliverable(#[trigger] cmds[j], client),
        },
    decreases cmds.len(),
{
    if cmds.len() > 0 {
        law_command_goes_to_its_target(cmds.drop_first(), client);
        if !deliverable(cmds[0], client) {
            match first_deliverable(cmds.drop_first(), client) {
                Some(k) => {
                    assert forall|j: int| 0 <= j < k + 1 implies !deliverable(
                        #[trigger] cmds[j],
                        client,
                    ) by {
                        if j > 0 {
                            assert(cmds[j] == cmds.drop_first()[j - 1]);
                        }
                    }
                    assert(cmds[k + 1] == cmds.drop_first()[k]);
                },
                None => {
                    assert forall|j: int| 0 <= j < cmds.len() implies !deliverable(
                        #[trigger] cmds[j],
                        client,
                    ) by {
                        if j > 0 {
                            assert(cmds[j] == cmds.drop_first()[j - 1]);
                        }
                    }
                },
            }
        }
    }
}

/// A snapshot request sends each connected page exactly one command,
/// addressed to that page.
pub proof fn law_snapshot_commands_address_each_page(batch: Seq<char>, targets: Seq<Seq<char>>)
    ensures
        snapshot_commands(batch, targets).len() == targets.len(),
        forall|i: int|
            0 <= i < targets.len() ==> (#[trigger] snapshot_commands(batch, targets)[i]).target
                == Some(targets[i]),
{
}

} // verus!
