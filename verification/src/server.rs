//! The web server's decisions: which requests come from trusted networks,
//! which queued request is served next, which file a request names, and the
//! texts of its responses.

use vstd::prelude::*;
use crate::text::{
    contains_str, join, joined, nonempty_only, occurs_in, replace_all, replaced, split_char,
    split_nonempty, split_on, str_eq, strs,
};

verus! {

/// The header of an HTML response.
pub const HTML_HEADER: &'static str = "HTTP/1.1 200 OK\r\nContent-Type: text/html; charset=UTF-8\r\n\r\n";

/// The header of a response that carries a file.
pub const FILE_HEADER: &'static str =
    "HTTP/1.1 200 OK\r\nContent-Type: application/octet-stream; charset=UTF-8\r\n\r\n";

/// The greeting page up to the visitor count.
pub const GREETING_HEAD: &'static str = "HTTP/1.1 200 OK\r\nContent-Type: text/html; charset=UTF-8\r\n\r\n\n                         <doctype !html><html><head><title>Hello, Rust!</title>\n                         <style>body { background-color: #111; color: #FFEEAA }\n                                h1 { font-size:2cm; text-align: center; color: black; text-shadow: 0 0 4mm red}\n                                h2 { font-size:2cm; text-align: center; color: black; text-shadow: 0 0 4mm green}\n                         </style></head>\n                         <body>\n                         <h1>Greetings, Krusty!</h1>\n                         <h2>Visitor count: ";

/// The greeting page after the visitor count.
pub const GREETING_TAIL: &'static str = "</h2>\n                         </body></html>\r\n";

/// The directive of a server-side include that runs a command.
pub const EXEC_DIRECTIVE: &'static str = "<!--#exec cmd";

/// The include that the output of the command replaces.
pub const EXEC_LS: &'static str = "<!--#exec cmd=\"ls\" -->";

/// `ip` can be checked against the trusted networks: where its first
/// dot-separated part names one of them, a second part follows.
pub open spec fn ip_checkable(ip: Seq<char>) -> bool {
    let p = split_char(ip, '.');
    (p[0] == "127"@ || p[0] == "128"@ || p[0] == "137"@) ==> p.len() >= 2
}

/// `ip` lies in one of the trusted networks 127.0, 128.143 and 137.54,
/// judged by its first two dot-separated parts.
pub open spec fn trusted_ip(ip: Seq<char>) -> bool {
    let p = split_char(ip, '.');
    ||| p[0] == "127"@ && p[1] == "0"@
    ||| p[0] == "128"@ && p[1] == "143"@
    ||| p[0] == "137"@ && p[1] == "54"@
}

/// Whether `ip` can be checked against the trusted networks.
pub fn ip_is_checkable(ip: &str) -> (r: bool)
    ensures
        r == ip_checkable(ip@),
{
    let p = split_on(ip, '.');
    proof {
        crate::text::lemma_split_char_nonempty(ip@, '.');
    }
    assert(p@.len() == strs(p@).len());
    assert(p@[0]@ == split_char(ip@, '.')[0]);
    let known = str_eq(p[0].as_str(), "127") || str_eq(p[0].as_str(), "128") || str_eq(
        p[0].as_str(),
        "137",
    );
    !known || p.len() >= 2
}

/// Whether the address `ip` lies in one of the trusted networks.
pub fn ip_parser(ip: &str) -> (r: bool)
    requires
        ip_checkable(ip@),
    ensures
        r == trusted_ip(ip@),
{
    let p = split_on(ip, '.');
    proof {
        crate::text::lemma_split_char_nonempty(ip@, '.');
        reveal_strlit("127");
        reveal_strlit("128");
        reveal_strlit("137");
        assert("127"@[2] != "128"@[2]);
        assert("127"@[1] != "137"@[1]);
        assert("128"@[1] != "137"@[1]);
    }
    assert(p@.len() == strs(p@).len());
    assert(p@[0]@ == split_char(ip@, '.')[0]);
    let first = p[0].as_str();
    if str_eq(first, "127") {
        assert(p@[1]@ == split_char(ip@, '.')[1]);
        str_eq(p[1].as_str(), "0")
    } else if str_eq(first, "128") {
        assert(p@[1]@ == split_char(ip@, '.')[1]);
        str_eq(p[1].as_str(), "143")
    } else if str_eq(first, "137") {
        assert(p@[1]@ == split_char(ip@, '.')[1]);
        str_eq(p[1].as_str(), "54")
    } else {
        false
    }
}

/// A request waiting to be served: `id` names its connection, `peer` is the
/// address of the client, `file_size` the size of the requested file.
#[derive(Debug, PartialEq, Eq)]
pub struct SchedMsg {
    pub id: u64,
    pub peer: String,
    pub file_size: u64,
}

/// `a` ranks below `b`: both come from trusted networks and `a` asks for
/// the smaller file.
pub open spec fn ranks_below(a: SchedMsg, b: SchedMsg) -> bool {
    trusted_ip(a.peer@) && trusted_ip(b.peer@) && a.file_size < b.file_size
}

impl SchedMsg {
    /// Whether this request ranks below `other`.
    pub fn lt(&self, other: &SchedMsg) -> (r: bool)
        requires
            ip_checkable(self.peer@),
            ip_checkable(other.peer@),
        ensures
            r == ranks_below(*self, *other),
    {
        let mine = ip_parser(self.peer.as_str());
        let theirs = ip_parser(other.peer.as_str());
        mine && theirs && self.file_size < other.file_size
    }
}

/// No request ranks below itself.
pub proof fn lemma_ranks_below_irreflexive(a: SchedMsg)
    ensures
        !ranks_below(a, a),
{
}

/// Ranking is transitive.
pub proof fn lemma_ranks_below_transitive(a: SchedMsg, b: SchedMsg, c: SchedMsg)
    requires
        ranks_below(a, b),
        ranks_below(b, c),
    ensures
        ranks_below(a, c),
{
}

/// The requests waiting to be served.
pub struct RequestQueue {
    items: Vec<SchedMsg>,
}

impl View for RequestQueue {
    type V = Seq<SchedMsg>;

    closed spec fn view(&self) -> Seq<SchedMsg> {
        self.items@
    }
}

impl RequestQueue {
    /// Every waiting request has a client address that can be ranked.
    pub open spec fn well_formed(&self) -> bool {
        forall|i: int| 0 <= i < self@.len() ==> ip_checkable(#[trigger] self@[i].peer@)
    }

    /// An empty queue.
    pub fn new() -> (q: RequestQueue)
        ensures
            q.well_formed(),
            q@ == Seq::<SchedMsg>::empty(),
    {
        RequestQueue { items: Vec::new() }
    }

    /// The number of waiting requests.
    pub fn len(&self) -> (n: usize)
        ensures
            n == self@.len(),
    {
        self.items.len()
    }

    /// Adds a request.
    pub fn push(&mut self, m: SchedMsg)
        requires
            old(self).well_formed(),
            ip_checkable(m.peer@),
        ensures
            final(self).well_formed(),
            final(self)@ == old(self)@.push(m),
    {
        let ghost before = self@;
        self.items.push(m);
        assert forall|i: int| 0 <= i < self@.len() implies ip_checkable(#[trigger] self@[i].peer@) by {
            if i < before.len() {
                assert(self@[i] == before[i]);
            }
        }
    }

    /// Takes out a request that no other waiting request outranks; `None`
    /// where none waits.
    pub fn pop(&mut self) -> (r: Option<SchedMsg>)
        requires
            old(self).well_formed(),
        ensures
            final(self).well_formed(),
            r is None <==> old(self)@.len() == 0,
            r is None ==> final(self)@ == old(self)@,
            r matches Some(m) ==> exists|k: int|
                0 <= k < old(self)@.len() && old(self)@[k] == m && final(self)@ == old(self)@.remove(k),
            r matches Some(m) ==> forall|j: int|
                0 <= j < final(self)@.len() ==> !ranks_below(m, #[trigger] final(self)@[j]),
    {
        let n = self.items.len();
        if n == 0 {
            return None;
        }
        let mut best: usize = 0;
        let mut i: usize = 1;
        while i < n
            invariant
                n == self.items@.len(),
                self.well_formed(),
                best < i <= n,
                forall|j: int| 0 <= j < i ==> !ranks_below(self.items@[best as int], #[trigger] self.items@[j]),
            decreases n - i,
        {
            assert(ip_checkable(self@[best as int].peer@));
            assert(ip_checkable(self@[i as int].peer@));
            if self.items[best].lt(&self.items[i]) {
                proof {
                    assert forall|j: int| 0 <= j < i + 1 implies !ranks_below(
                        self.items@[i as int],
                        #[trigger] self.items@[j],
                    ) by {
                        if j < i && ranks_below(self.items@[i as int], self.items@[j]) {
                            lemma_ranks_below_transitive(self.items@[best as int], self.items@[i as int], self.items@[j]);
                        }
                    }
                }
                best = i;
            }
            i = i + 1;
        }
        let ghost before = self.items@;
        assert forall|j: int| 0 <= j < before.len() implies ip_checkable(#[trigger] before[j].peer@) by {
            assert(ip_checkable(self@[j].peer@));
        }
        let m = self.items.remove(best);
        assert(self@ == before.remove(best as int));
        assert forall|j: int| 0 <= j < self@.len() implies !ranks_below(m, #[trigger] self@[j]) by {
            if j < best {
                assert(self@[j] == before[j]);
            } else {
                assert(self@[j] == before[j + 1]);
            }
        }
        assert forall|j: int| 0 <= j < self@.len() implies ip_checkable(#[trigger] self@[j].peer@) by {
            if j < best {
                assert(self@[j] == before[j]);
                assert(ip_checkable(before[j].peer@));
            } else {
                assert(self@[j] == before[j + 1]);
                assert(ip_checkable(before[j + 1].peer@));
            }
        }
        Some(m)
    }
}

/// The path that the request `request` asks for: the text between its
/// first and its second space, where it has two spaces.
pub open spec fn requested_path(request: Seq<char>) -> Option<Seq<char>> {
    let p = split_char(request, ' ');
    if p.len() > 2 {
        Some(p[1])
    } else {
        None
    }
}

/// The path that the request `request` asks for, if it names one.
pub fn request_path(request: &str) -> (r: Option<String>)
    ensures
        r matches Some(path) ==> requested_path(request@) == Some(path@),
        r is None ==> requested_path(request@) is None,
{
    let p = split_on(request, ' ');
    assert(p@.len() == strs(p@).len());
    if p.len() > 2 {
        assert(p@[1]@ == split_char(request@, ' ')[1]);
        Some(p[1].clone())
    } else {
        None
    }
}

/// `path` with every `/../` taken out, from left to right.
pub fn strip_parent_refs(path: &str) -> (r: String)
    ensures
        r@ == replaced(path@, "/../"@, ""@),
{
    proof {
        reveal_strlit("/../");
    }
    replace_all(path, "/../", "")
}

/// A request path without `/../` is kept as it is.
pub proof fn lemma_plain_path_kept(path: Seq<char>)
    requires
        !occurs_in(path, "/../"@),
    ensures
        replaced(path, "/../"@, ""@) == path,
{
    reveal_strlit("/../");
    crate::text::lemma_replaced_without_match(path, "/../"@, ""@);
}

/// The file that the path `path` names under the directory `cwd`: the
/// non-empty parts of both between slashes, after a slash and separated by
/// slashes.
pub open spec fn path_under(cwd: Seq<char>, path: Seq<char>) -> Seq<char> {
    "/"@ + joined(nonempty_only(split_char(cwd, '/')) + nonempty_only(split_char(path, '/')), "/"@)
}

/// The file that the path `path` names under the directory `cwd`.
pub fn file_path(cwd: &str, path: &str) -> (r: String)
    ensures
        r@ == path_under(cwd@, path@),
{
    let mut parts = split_nonempty(cwd, '/');
    let more = split_nonempty(path, '/');
    let ghost first = strs(parts@);
    let mut i: usize = 0;
    while i < more.len()
        invariant
            i <= more.len(),
            strs(more@) == nonempty_only(split_char(path@, '/')),
            first == nonempty_only(split_char(cwd@, '/')),
            strs(parts@) == first + strs(more@).take(i as int),
        decreases more.len() - i,
    {
        let ghost before = parts@;
        parts.push(more[i].clone());
        assert(strs(parts@) =~= strs(before).push(more@[i as int]@));
        assert(strs(more@).take(i + 1) =~= strs(more@).take(i as int).push(more@[i as int]@));
        assert(strs(parts@) =~= first + strs(more@).take(i + 1));
        i = i + 1;
    }
    assert(strs(more@).take(i as int) =~= strs(more@));
    let mut r = String::from_str("/");
    let rest = join(&parts, "/");
    r.append(rest.as_str());
    r
}

/// What the server does with a request for an existing or missing file.
#[derive(Clone, Copy, Debug, PartialEq, Eq, Structural)]
pub enum Route {
    /// Answer with the file, its server-side include filled in.
    Include,
    /// Answer with the greeting page.
    Greeting,
    /// Queue the request; the file is sent when its turn comes.
    Schedule,
}

/// What the server does with a request for the file at `path`, which
/// exists or not and is a directory or not; `includes` says whether the
/// server fills in server-side includes (of `.shtml` files).
pub open spec fn route_of(path: Seq<char>, present: bool, is_dir: bool, includes: bool) -> Route {
    if includes && occurs_in(path, ".shtml"@) {
        Route::Include
    } else if !present || is_dir {
        Route::Greeting
    } else {
        Route::Schedule
    }
}

/// What the server does with a request for the file at `path`.
pub fn route(path: &str, present: bool, is_dir: bool, includes: bool) -> (r: Route)
    ensures
        r == route_of(path@, present, is_dir, includes),
{
    if includes && contains_str(path, ".shtml") {
        Route::Include
    } else if !present || is_dir {
        Route::Greeting
    } else {
        Route::Schedule
    }
}

/// The greeting page, with the visitor count `count`.
pub fn greeting_page(count: u64) -> (page: String)
    ensures
        page@ == GREETING_HEAD@ + crate::text::decimal(count as nat) + GREETING_TAIL@,
{
    let mut page = String::from_str(GREETING_HEAD);
    let n = crate::text::decimal_string(count);
    page.append(n.as_str());
    page.append(GREETING_TAIL);
    page
}

/// `data` can be searched for the command of a server-side include: where
/// it holds the directive, it holds a double quote as well.
pub open spec fn include_checkable(data: Seq<char>) -> bool {
    occurs_in(data, EXEC_DIRECTIVE@) ==> split_char(data, '"').len() >= 2
}

/// The command of the server-side include in `data`: the text after its
/// first double quote, up to the next one; none where `data` holds no
/// include directive.
pub open spec fn include_command(data: Seq<char>) -> Option<Seq<char>> {
    if occurs_in(data, EXEC_DIRECTIVE@) {
        Some(split_char(data, '"')[1])
    } else {
        None
    }
}

/// Whether `data` can be searched for the command of a server-side include.
pub fn include_is_checkable(data: &str) -> (r: bool)
    ensures
        r == include_checkable(data@),
{
    let p = split_on(data, '"');
    assert(p@.len() == strs(p@).len());
    !contains_str(data, EXEC_DIRECTIVE) || p.len() >= 2
}

/// The command of the server-side include in `data`, if it holds one.
pub fn ssi_command(data: &str) -> (r: Option<String>)
    requires
        include_checkable(data@),
    ensures
        r matches Some(c) ==> include_command(data@) == Some(c@),
        r is None ==> include_command(data@) is None,
{
    if contains_str(data, EXEC_DIRECTIVE) {
        let p = split_on(data, '"');
        assert(p@.len() == strs(p@).len());
        assert(p@[1]@ == split_char(data@, '"')[1]);
        Some(p[1].clone())
    } else {
        None
    }
}

/// The response for the page `data` whose include printed `output`: the
/// HTML header and the page, with each `<!--#exec cmd="ls" -->` replaced by
/// the output in a paragraph.
pub fn ssi_response(data: &str, output: &str) -> (r: String)
    ensures
        r@ == replaced(HTML_HEADER@ + data@, EXEC_LS@, "<p>"@ + output@ + "</p>"@),
{
    let mut page = String::from_str(HTML_HEADER);
    page.append(data);
    let mut para = String::from_str("<p>");
    para.append(output);
    para.append("</p>");
    proof {
        reveal_strlit("<!--#exec cmd=\"ls\" -->");
    }
    replace_all(page.as_str(), EXEC_LS, para.as_str())
}

/// Of the addresses whose first dot-separated part is 127, 128 or 137,
/// exactly those whose second part is 0, 143 or 54 respectively are trusted;
/// an address with any other first part is not trusted.
pub proof fn lemma_trusted_networks(ip: Seq<char>)
    requires
        split_char(ip, '.').len() >= 2,
    ensures
        split_char(ip, '.')[0] == "127"@ ==> (trusted_ip(ip) <==> split_char(ip, '.')[1] == "0"@),
        split_char(ip, '.')[0] == "128"@ ==> (trusted_ip(ip) <==> split_char(ip, '.')[1] == "143"@),
        split_char(ip, '.')[0] == "137"@ ==> (trusted_ip(ip) <==> split_char(ip, '.')[1] == "54"@),
        split_char(ip, '.')[0] != "127"@ && split_char(ip, '.')[0] != "128"@
            && split_char(ip, '.')[0] != "137"@ ==> !trusted_ip(ip),
{
    reveal_strlit("127");
    reveal_strlit("128");
    reveal_strlit("137");
    assert("127"@[2] != "128"@[2]);
    assert("127"@[1] != "137"@[1]);
    assert("128"@[1] != "137"@[1]);
}

/// A request ranks below another only where both come from trusted
/// networks and it asks for the strictly smaller file; in particular a
/// request from an untrusted address ranks below none, and none ranks below
/// it.
pub proof fn lemma_ranking_needs_trust(a: SchedMsg, b: SchedMsg)
    ensures
        ranks_below(a, b) ==> trusted_ip(a.peer@),
        ranks_below(a, b) ==> trusted_ip(b.peer@),
        ranks_below(a, b) ==> a.file_size < b.file_size,
        trusted_ip(a.peer@) && trusted_ip(b.peer@) && a.file_size < b.file_size ==> ranks_below(a, b),
{
}

/// A request for a missing file or a directory gets the greeting page,
/// whether or not includes are served, unless it is a `.shtml` page served
/// with includes; an existing plain file is queued; a `.shtml` page served
/// with includes is filled in.
pub proof fn lemma_routes(path: Seq<char>, present: bool, is_dir: bool, includes: bool)
    ensures
        (!present || is_dir) && !(includes && occurs_in(path, ".shtml"@)) ==> route_of(
            path,
            present,
            is_dir,
            includes,
        ) == Route::Greeting,
        present && !is_dir && !(includes && occurs_in(path, ".shtml"@)) ==> route_of(
            path,
            present,
            is_dir,
            includes,
        ) == Route::Schedule,
        includes && occurs_in(path, ".shtml"@) ==> route_of(path, present, is_dir, includes)
            == Route::Include,
{
}

/// The command of an include is the text between the first and the second
/// double quote of the page: for a page `a"c"b` that holds the directive,
/// where neither `a` nor `c` holds a double quote, it is `c`, whatever `b`
/// holds.
pub proof fn lemma_include_command_between_quotes(a: Seq<char>, c: Seq<char>, b: Seq<char>)
    requires
        !a.contains('"'),
        !c.contains('"'),
        occurs_in(a.push('"') + c.push('"') + b, EXEC_DIRECTIVE@),
    ensures
        include_command(a.push('"') + c.push('"') + b) == Some(c),
{
    let data = a.push('"') + c.push('"') + b;
    crate::text::lemma_split_around_separator(c, b, '"');
    crate::text::lemma_split_around_separator(a, c.push('"') + b, '"');
    crate::text::lemma_split_plain(a, '"');
    crate::text::lemma_split_plain(c, '"');
    assert(data =~= a.push('"') + (c.push('"') + b));
    let sp = split_char(data, '"');
    assert(sp == seq![a] + (seq![c] + split_char(b, '"')));
    assert(sp[1] == c);
}

} // verus!
