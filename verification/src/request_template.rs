//! Request templates.
//!
//! A template is read once from the text of a raw HTTP request. Header lines
//! and the body in which the marker pattern occurs are kept apart as marked
//! parts; everything else is fixed. A payload is then put in the place of
//! the marker in every marked part to give a concrete request.

use crate::marker::{compiles, marker_compiles, marker_found, occurs_in, substitute, substituted};
use crate::text::{
    index_of, join_from, joined, lemma_index_of_at, lemma_index_of_bounds,
    lemma_skip_spaces_bounds, lemma_trim_end_bounds, lemma_trimmed_edges, lemma_trimmed_fixed,
    skip_spaces, lines_of, pair_at, same_ignoring_case, same_name, same_text, split_lines,
    split_pair, split_words, trim, trimmed, views, words_of,
};
use crate::wire::{
    header_name_accepted, header_name_ok, header_value_accepted, header_value_ok, method_accepted,
    method_ok, target_accepted, target_ok,
};
use vstd::prelude::*;
use vstd::string::*;

verus! {

/// The scheme of every request target.
pub const SCHEME: &'static str = "http";

/// How payloads are laid onto the marked positions of a template.
#[derive(Copy, Clone, Debug, PartialEq, Eq, Structural)]
pub enum AttackType {
    Sniper,
    BatteringRam,
    Pitchfork,
    ClusterBomb,
}

/// The protocol version of a request.
#[derive(Copy, Clone, Debug, PartialEq, Eq, Structural)]
pub enum HttpVersion {
    Http09,
    Http10,
    Http11,
    Http2,
    Http3,
}

/// Why a text is no request template.
#[derive(Copy, Clone, Debug, PartialEq, Eq, Structural)]
pub enum TemplateError {
    /// The text has no line at all.
    Empty,
    /// The first line has fewer than three words.
    InvalidRequestLine,
    /// The first word of the first line is no HTTP method.
    InvalidMethod,
    /// A header line has no colon, or holds what no header may hold.
    InvalidHeader,
}

/// Why no request came of a payload.
#[derive(Clone, Debug, PartialEq, Eq)]
pub enum AttackError {
    /// The attack type of the template is not available.
    NotImplemented,
    /// With this payload in it a marked header is no header.
    InvalidRequest(String),
}

/// The marker pattern is no regular expression.
#[derive(Clone, Debug, PartialEq, Eq)]
pub struct PatternError {
    pub pattern: String,
}

/// One header: a name and a value.
#[derive(Clone, Debug, PartialEq, Eq)]
pub struct Header {
    pub name: String,
    pub value: String,
}

impl View for Header {
    type V = (Seq<char>, Seq<char>);

    open spec fn view(&self) -> (Seq<char>, Seq<char>) {
        (self.name@, self.value@)
    }
}

/// Either a header line is marked, or the body.
#[derive(Clone, Debug, PartialEq, Eq)]
pub enum Part {
    Body(String),
    Header(String),
}

/// What a `Part` stands for.
pub enum PartView {
    Body(Seq<char>),
    Header(Seq<char>),
}

impl View for Part {
    type V = PartView;

    open spec fn view(&self) -> PartView {
        match self {
            Part::Body(text) => PartView::Body(text@),
            Part::Header(line) => PartView::Header(line@),
        }
    }
}

/// What a header line of a template says.
#[derive(Clone, Debug, PartialEq, Eq)]
pub enum HeaderLine {
    /// The marker occurs in the line: it is kept as it stands.
    Marked(String),
    /// The line names the host.
    Host(String),
    /// The line gives the length of the body, which is not kept.
    Dropped,
    /// Any other name and value.
    Stored(String, String),
    /// The line has no colon.
    Invalid,
}

/// What a `HeaderLine` stands for.
pub enum HeaderLineView {
    Marked(Seq<char>),
    Host(Seq<char>),
    Dropped,
    Stored(Seq<char>, Seq<char>),
    Invalid,
}

impl View for HeaderLine {
    type V = HeaderLineView;

    open spec fn view(&self) -> HeaderLineView {
        match self {
            HeaderLine::Marked(line) => HeaderLineView::Marked(line@),
            HeaderLine::Host(value) => HeaderLineView::Host(value@),
            HeaderLine::Dropped => HeaderLineView::Dropped,
            HeaderLine::Stored(name, value) => HeaderLineView::Stored(name@, value@),
            HeaderLine::Invalid => HeaderLineView::Invalid,
        }
    }
}

/// What a `RequestComponents` stands for.
pub struct ComponentsView {
    pub head: Seq<(Seq<char>, Seq<char>)>,
    pub authority: Option<Seq<char>>,
    pub path: Seq<char>,
    pub version: HttpVersion,
    pub body: Seq<char>,
    pub method: Seq<char>,
}

/// What a `RequestTemplate` stands for.
pub struct TemplateView {
    pub req: ComponentsView,
    pub marked: Seq<PartView>,
    pub pattern: Seq<char>,
    pub attack_type: AttackType,
}

/// What an `AttackError` stands for.
pub enum AttackErrorView {
    NotImplemented,
    InvalidRequest(Seq<char>),
}

impl View for AttackError {
    type V = AttackErrorView;

    open spec fn view(&self) -> AttackErrorView {
        match self {
            AttackError::NotImplemented => AttackErrorView::NotImplemented,
            AttackError::InvalidRequest(payload) => AttackErrorView::InvalidRequest(payload@),
        }
    }
}

/// The names and values that a sequence of headers stands for.
pub open spec fn header_views(head: Seq<Header>) -> Seq<(Seq<char>, Seq<char>)> {
    head.map_values(|h: Header| h@)
}

/// What a sequence of parts stands for.
pub open spec fn part_views(parts: Seq<Part>) -> Seq<PartView> {
    parts.map_values(|p: Part| p@)
}

/// The version that a token of the request line stands for. A token that
/// is none of the four named here stands for HTTP/1.1.
pub open spec fn version_of(token: Seq<char>) -> HttpVersion {
    if token == "HTTP/0.9"@ {
        HttpVersion::Http09
    } else if token == "HTTP/1"@ {
        HttpVersion::Http10
    } else if token == "HTTP/2"@ {
        HttpVersion::Http2
    } else if token == "HTTP/3"@ {
        HttpVersion::Http3
    } else {
        HttpVersion::Http11
    }
}

/// The first index at or after `from` whose header has the name `name`, the
/// case of ASCII letters aside; `head.len()` if there is none.
pub open spec fn header_index(head: Seq<(Seq<char>, Seq<char>)>, name: Seq<char>, from: int) -> int
    decreases head.len() - from,
{
    if 0 <= from < head.len() && !same_ignoring_case(head[from].0, name) {
        header_index(head, name, from + 1)
    } else {
        from
    }
}

/// `head` once `name` has the value `value`: the header of that name gets
/// the new value where it stands, and a new name goes to the end.
pub open spec fn with_header(
    head: Seq<(Seq<char>, Seq<char>)>,
    name: Seq<char>,
    value: Seq<char>,
) -> Seq<(Seq<char>, Seq<char>)> {
    let i = header_index(head, name, 0);
    if i < head.len() {
        head.update(i, (head[i].0, value))
    } else {
        head.push((name, value))
    }
}

/// No two headers have the same name, the case of ASCII letters aside.
pub open spec fn distinct_names(head: Seq<(Seq<char>, Seq<char>)>) -> bool {
    forall|i: int, j: int|
        0 <= i < j < head.len() ==> !same_ignoring_case(#[trigger] head[i].0, #[trigger] head[j].0)
}

/// What a trimmed header line says, given whether the marker occurs in it.
pub open spec fn header_line(line: Seq<char>, marked: bool) -> HeaderLineView {
    if marked {
        HeaderLineView::Marked(line)
    } else {
        match pair_at(line, ':') {
            None => HeaderLineView::Invalid,
            Some((name, value)) => if name == "Host"@ {
                HeaderLineView::Host(value)
            } else if name == "Content-Length"@ {
                HeaderLineView::Dropped
            } else {
                HeaderLineView::Stored(name, value)
            },
        }
    }
}

/// The template after one more header line.
pub open spec fn after_header(t: TemplateView, line: HeaderLineView) -> Result<
    TemplateView,
    TemplateError,
> {
    match line {
        HeaderLineView::Marked(text) => Ok(
            TemplateView { marked: t.marked.push(PartView::Header(text)), ..t },
        ),
        HeaderLineView::Host(authority) => if target_accepted(SCHEME@, authority, t.req.path) {
            Ok(TemplateView { req: ComponentsView { authority: Some(authority), ..t.req }, ..t })
        } else {
            Err(TemplateError::InvalidHeader)
        },
        HeaderLineView::Dropped => Ok(t),
        HeaderLineView::Stored(name, value) => if header_name_accepted(name)
            && header_value_accepted(value) {
            Ok(
                TemplateView {
                    req: ComponentsView { head: with_header(t.req.head, name, value), ..t.req },
                    ..t
                },
            )
        } else {
            Err(TemplateError::InvalidHeader)
        },
        HeaderLineView::Invalid => Err(TemplateError::InvalidHeader),
    }
}

/// The template with its body: the body is a marked part where the marker
/// occurs in it.
pub open spec fn with_body(t: TemplateView, body: Seq<char>) -> TemplateView {
    TemplateView {
        req: ComponentsView { body: body, ..t.req },
        marked: if marker_found(t.pattern, body) {
            t.marked.push(PartView::Body(body))
        } else {
            t.marked
        },
        ..t
    }
}

/// The template that comes of `t` and the lines from `i` on: header lines
/// up to the first blank line, then the body, which is all further lines
/// with nothing between them.
pub open spec fn after_lines(t: TemplateView, lines: Seq<Seq<char>>, i: int) -> Result<
    TemplateView,
    TemplateError,
>
    decreases lines.len() - i,
{
    if i < 0 || i >= lines.len() {
        Ok(with_body(t, Seq::empty()))
    } else {
        let line = trimmed(lines[i]);
        if line.len() == 0 {
            Ok(with_body(t, joined(lines, i + 1)))
        } else {
            match after_header(t, header_line(line, marker_found(t.pattern, line))) {
                Err(e) => Err(e),
                Ok(next) => after_lines(next, lines, i + 1),
            }
        }
    }
}

/// The template at the request line: nothing but method, path and version.
pub open spec fn at_request_line(
    words: Seq<Seq<char>>,
    pattern: Seq<char>,
    attack_type: AttackType,
) -> TemplateView {
    TemplateView {
        req: ComponentsView {
            head: Seq::empty(),
            authority: None,
            path: words[1],
            version: version_of(words[2]),
            body: Seq::empty(),
            method: words[0],
        },
        marked: Seq::empty(),
        pattern: pattern,
        attack_type: attack_type,
    }
}

/// The template that `text` describes, or the reason why it describes none.
pub open spec fn parsed(text: Seq<char>, pattern: Seq<char>, attack_type: AttackType) -> Result<
    TemplateView,
    TemplateError,
> {
    let lines = lines_of(text);
    if lines.len() == 0 {
        Err(TemplateError::Empty)
    } else {
        let words = words_of(lines[0]);
        if words.len() < 3 {
            Err(TemplateError::InvalidRequestLine)
        } else if !method_accepted(words[0]) {
            Err(TemplateError::InvalidMethod)
        } else {
            after_lines(at_request_line(words, pattern, attack_type), lines, 1)
        }
    }
}

/// The header that a marked header line gives with `payload` in it: the
/// line is cut at its first colon, both sides are trimmed, and the payload
/// is put into each. `None` where the line has no colon or the result is no
/// header.
pub open spec fn marked_header(pattern: Seq<char>, line: Seq<char>, payload: Seq<char>) -> Option<
    (Seq<char>, Seq<char>),
> {
    match pair_at(line, ':') {
        None => None,
        Some((key, value)) => {
            let name = substituted(pattern, key, payload);
            let content = substituted(pattern, value, payload);
            if header_name_accepted(name) && header_value_accepted(content) {
                Some((name, content))
            } else {
                None
            }
        },
    }
}

/// The request that the marked parts from `i` on give, with `head` and
/// `body` standing for what the earlier parts gave.
pub open spec fn battering_ram_from(
    t: TemplateView,
    payload: Seq<char>,
    i: int,
    head: Seq<(Seq<char>, Seq<char>)>,
    body: Seq<char>,
) -> Option<ComponentsView>
    decreases t.marked.len() - i,
{
    if i < 0 || i >= t.marked.len() {
        Some(ComponentsView { head: head, body: substituted(t.pattern, body, payload), ..t.req })
    } else {
        match t.marked[i] {
            PartView::Header(line) => match marked_header(t.pattern, line, payload) {
                None => None,
                Some(header) => battering_ram_from(t, payload, i + 1, head.push(header), body),
            },
            PartView::Body(text) => battering_ram_from(t, payload, i + 1, head, text),
        }
    }
}

/// The one request of a battering ram attack: the same payload at every
/// marked position.
pub open spec fn battering_ram_request(t: TemplateView, payload: Seq<char>) -> Option<
    ComponentsView,
> {
    battering_ram_from(t, payload, 0, t.req.head, t.req.body)
}

/// The requests that `payload` gives, or the reason why it gives none.
pub open spec fn generated(t: TemplateView, payload: Seq<char>) -> Result<
    Seq<ComponentsView>,
    AttackErrorView,
> {
    match t.attack_type {
        AttackType::BatteringRam => match battering_ram_request(t, payload) {
            Some(request) => Ok(seq![request]),
            None => Err(AttackErrorView::InvalidRequest(payload)),
        },
        _ => Err(AttackErrorView::NotImplemented),
    }
}

/// A header written as a line: the name, a colon, a blank and the value.
pub open spec fn header_text(name: Seq<char>, value: Seq<char>) -> Seq<char> {
    name + seq![':', ' '] + value
}

/// The marked parts are header lines in which the marker occurs, followed
/// by the body if and only if the marker occurs in it.
pub open spec fn marked_wf(t: TemplateView) -> bool {
    let n = t.marked.len();
    let body_marked = marker_found(t.pattern, t.req.body);
    &&& body_marked ==> n > 0 && t.marked[n - 1] == PartView::Body(t.req.body)
    &&& forall|i: int|
        0 <= i < n - (if body_marked {
            1int
        } else {
            0int
        }) ==> (#[trigger] t.marked[i] matches PartView::Header(line) && marker_found(
            t.pattern,
            line,
        ) && line.len() > 0)
}

/// The fixed headers are headers with distinct names; the host and the
/// length of the body are not among them.
pub open spec fn head_wf(head: Seq<(Seq<char>, Seq<char>)>) -> bool {
    &&& distinct_names(head)
    &&& forall|i: int|
        0 <= i < head.len() ==> {
            &&& header_name_accepted(#[trigger] head[i].0)
            &&& header_value_accepted(head[i].1)
            &&& head[i].0 != "Host"@
            &&& head[i].0 != "Content-Length"@
        }
}

/// What holds of every template that was read from a text.
pub open spec fn template_wf(t: TemplateView) -> bool {
    &&& method_accepted(t.req.method)
    &&& t.req.authority matches Some(authority) ==> target_accepted(SCHEME@, authority, t.req.path)
    &&& head_wf(t.req.head)
    &&& marked_wf(t)
}

/// Represents the components of a request: those that a template fixes, and
/// those of a concrete request that came of a template.
#[derive(Clone, Debug, PartialEq, Eq)]
pub struct RequestComponents {
    head: Vec<Header>,
    authority: Option<String>,
    path: String,
    version: HttpVersion,
    body: String,
    method: String,
}

impl View for RequestComponents {
    type V = ComponentsView;

    closed spec fn view(&self) -> ComponentsView {
        ComponentsView {
            head: header_views(self.head@),
            authority: match self.authority {
                Some(a) => Some(a@),
                None => None,
            },
            path: self.path@,
            version: self.version,
            body: self.body@,
            method: self.method@,
        }
    }
}

/// The position of the header named `name`, or `head.len()`.
fn find_header(head: &Vec<Header>, name: &str) -> (r: usize)
    ensures
        r == header_index(header_views(head@), name@, 0),
        r <= head.len(),
{
    let mut i: usize = 0;
    while i < head.len() && !same_name(head[i].name.as_str(), name)
        invariant
            i <= head.len(),
            header_index(header_views(head@), name@, 0) == header_index(
                header_views(head@),
                name@,
                i as int,
            ),
        decreases head.len() - i,
    {
        i += 1;
    }
    i
}

/// A copy of the headers.
fn copy_head(head: &Vec<Header>) -> (out: Vec<Header>)
    ensures
        header_views(out@) == header_views(head@),
{
    let mut out: Vec<Header> = Vec::new();
    let mut i: usize = 0;
    while i < head.len()
        invariant
            i <= head.len(),
            header_views(out@) == header_views(head@).take(i as int),
        decreases head.len() - i,
    {
        let ghost before = header_views(out@);
        let h = Header { name: head[i].name.clone(), value: head[i].value.clone() };
        out.push(h);
        proof {
            assert(header_views(out@) =~= before.push(h@));
            assert(header_views(head@).take(i + 1) =~= header_views(head@).take(i as int).push(
                header_views(head@)[i as int],
            ));
        }
        i += 1;
    }
    proof {
        assert(header_views(head@).take(head.len() as int) =~= header_views(head@));
    }
    out
}

impl RequestComponents {
    /// Create a new empty [RequestComponents]: `GET /` over HTTP/1.1, with
    /// no header, no host and no body.
    pub fn new() -> (r: Self)
        ensures
            r@ == (ComponentsView {
                head: Seq::empty(),
                authority: None,
                path: "/"@,
                version: HttpVersion::Http11,
                body: Seq::empty(),
                method: "GET"@,
            }),
    {
        let r = RequestComponents {
            head: Vec::new(),
            authority: None,
            path: "/".to_owned(),
            version: HttpVersion::Http11,
            body: String::new(),
            method: "GET".to_owned(),
        };
        proof {
            assert(header_views(r.head@) =~= Seq::empty());
        }
        r
    }

    /// Gives the header `key` the value `value`, whatever they hold.
    pub fn put_header(&mut self, key: String, value: String)
        ensures
            final(self)@ == (ComponentsView {
                head: with_header(old(self)@.head, key@, value@),
                ..old(self)@
            }),
    {
        let i = find_header(&self.head, key.as_str());
        let ghost before = header_views(self.head@);
        if i < self.head.len() {
            let name = self.head[i].name.clone();
            let h = Header { name: name, value: value };
            self.head.set(i, h);
            proof {
                assert(header_views(self.head@) =~= before.update(i as int, (before[i as int].0, value@)));
            }
        } else {
            let h = Header { name: key, value: value };
            self.head.push(h);
            proof {
                assert(header_views(self.head@) =~= before.push((key@, value@)));
            }
        }
    }

    /// Insert a header into head. The header is refused where its name or
    /// its value is not accepted.
    pub fn insert_header(&mut self, key: String, value: String) -> (r: Result<(), TemplateError>)
        ensures
            header_name_accepted(key@) && header_value_accepted(value@) ==> r is Ok && final(self)@
                == (ComponentsView {
                head: with_header(old(self)@.head, key@, value@),
                ..old(self)@
            }),
            !(header_name_accepted(key@) && header_value_accepted(value@)) ==> r == Err::<
                (),
                TemplateError,
            >(TemplateError::InvalidHeader) && final(self)@ == old(self)@,
    {
        if header_name_ok(key.as_str()) && header_value_ok(value.as_str()) {
            self.put_header(key, value);
            Ok(())
        } else {
            Err(TemplateError::InvalidHeader)
        }
    }

    /// The headers, in order.
    pub fn head(&self) -> (r: &Vec<Header>)
        ensures
            header_views(r@) == self@.head,
    {
        &self.head
    }

    /// The host that the request goes to, where one is known.
    pub fn authority(&self) -> (r: &Option<String>)
        ensures
            match self@.authority {
                Some(a) => r matches Some(s) && s@ == a,
                None => r is None,
            },
    {
        &self.authority
    }

    /// The path of the request line.
    pub fn path(&self) -> (r: &String)
        ensures
            r@ == self@.path,
    {
        &self.path
    }

    /// The protocol version.
    pub fn version(&self) -> (r: HttpVersion)
        ensures
            r == self@.version,
    {
        self.version
    }

    /// The body.
    pub fn body(&self) -> (r: &String)
        ensures
            r@ == self@.body,
    {
        &self.body
    }

    /// The method.
    pub fn method(&self) -> (r: &String)
        ensures
            r@ == self@.method,
    {
        &self.method
    }
}

/// The version that a token of the request line stands for.
pub fn parse_version(token: &str) -> (v: HttpVersion)
    ensures
        v == version_of(token@),
{
    if same_text(token, "HTTP/0.9") {
        HttpVersion::Http09
    } else if same_text(token, "HTTP/1") {
        HttpVersion::Http10
    } else if same_text(token, "HTTP/2") {
        HttpVersion::Http2
    } else if same_text(token, "HTTP/3") {
        HttpVersion::Http3
    } else {
        HttpVersion::Http11
    }
}

/// Reads a trimmed header line, given whether the marker occurs in it.
pub fn read_header_line(line: String, marked: bool) -> (r: HeaderLine)
    ensures
        r@ == header_line(line@, marked),
{
    if marked {
        HeaderLine::Marked(line)
    } else {
        match split_pair(line.as_str(), ':') {
            None => HeaderLine::Invalid,
            Some((name, value)) => {
                if same_text(name.as_str(), "Host") {
                    HeaderLine::Host(value)
                } else if same_text(name.as_str(), "Content-Length") {
                    HeaderLine::Dropped
                } else {
                    HeaderLine::Stored(name, value)
                }
            },
        }
    }
}

/// Represents the text of a request template together with the marker
/// pattern and the attack type to read it with.
#[derive(Clone, Debug, PartialEq, Eq)]
pub struct ReqTemplateFile {
    text: String,
    pattern: String,
    attack_type: AttackType,
}

impl ReqTemplateFile {
    /// The text of the template.
    pub closed spec fn text(&self) -> Seq<char> {
        self.text@
    }

    /// The marker pattern.
    pub closed spec fn pattern(&self) -> Seq<char> {
        self.pattern@
    }

    /// The attack type.
    pub closed spec fn attack_type(&self) -> AttackType {
        self.attack_type
    }

    /// Takes the text of a template. The pattern must be a regular
    /// expression.
    pub fn new(text: String, pattern: &str, attack_type: AttackType) -> (r: Result<
        Self,
        PatternError,
    >)
        ensures
            marker_compiles(pattern@) ==> (r matches Ok(file) && file.text() == text@
                && file.pattern() == pattern@ && file.attack_type() == attack_type),
            !marker_compiles(pattern@) ==> (r matches Err(e) && e.pattern@ == pattern@),
    {
        if compiles(pattern) {
            Ok(ReqTemplateFile { text: text, pattern: pattern.to_owned(), attack_type: attack_type })
        } else {
            Err(PatternError { pattern: pattern.to_owned() })
        }
    }
}

/// Stores the template
///
/// This struct stores the known RequestComponents, the pattern for
/// identifying what components are not known (marked) and have to be
/// modified before building a new request, and the marked [Part]s
/// themselves.
#[derive(Clone, Debug, PartialEq, Eq)]
pub struct RequestTemplate {
    req: RequestComponents,
    marked: Vec<Part>,
    pattern: String,
    attack_type: AttackType,
}

impl View for RequestTemplate {
    type V = TemplateView;

    closed spec fn view(&self) -> TemplateView {
        TemplateView {
            req: self.req@,
            marked: part_views(self.marked@),
            pattern: self.pattern@,
            attack_type: self.attack_type,
        }
    }
}

/// The concrete requests that came of one payload, and the payload.
#[derive(Clone, Debug, PartialEq, Eq)]
pub struct GeneratedRequestSet {
    pub requests: Vec<RequestComponents>,
    pub payload: String,
}

/// What a sequence of requests stands for.
pub open spec fn request_views(requests: Seq<RequestComponents>) -> Seq<ComponentsView> {
    requests.map_values(|r: RequestComponents| r@)
}

impl RequestTemplate {
    /// Takes one more header line into the template.
    fn take_header(&mut self, line: HeaderLine) -> (r: Result<(), TemplateError>)
        ensures
            match after_header(old(self)@, line@) {
                Ok(next) => r is Ok && final(self)@ == next,
                Err(e) => r == Err::<(), TemplateError>(e),
            },
    {
        match line {
            HeaderLine::Marked(text) => {
                let ghost before = part_views(self.marked@);
                let part = Part::Header(text);
                self.marked.push(part);
                proof {
                    assert(part_views(self.marked@) =~= before.push(part@));
                }
                Ok(())
            },
            HeaderLine::Host(authority) => {
                if target_ok(SCHEME, authority.as_str(), self.req.path.as_str()) {
                    self.req.authority = Some(authority);
                    Ok(())
                } else {
                    Err(TemplateError::InvalidHeader)
                }
            },
            HeaderLine::Dropped => Ok(()),
            HeaderLine::Stored(name, value) => self.req.insert_header(name, value),
            HeaderLine::Invalid => Err(TemplateError::InvalidHeader),
        }
    }

    /// Gives the template its body.
    fn take_body(&mut self, body: String)
        ensures
            final(self)@ == with_body(old(self)@, body@),
    {
        if occurs_in(self.pattern.as_str(), body.as_str()) {
            let ghost before = part_views(self.marked@);
            let part = Part::Body(body.clone());
            self.marked.push(part);
            proof {
                assert(part_views(self.marked@) =~= before.push(part@));
            }
        }
        self.req.body = body;
    }

    /// Reads a template from its text.
    ///
    /// The first line is the request line: method, path and version, set
    /// apart by white space. The lines up to the first blank one are
    /// headers, and what follows is the body.
    pub fn try_from(req_templ: ReqTemplateFile) -> (r: Result<Self, TemplateError>)
        ensures
            match parsed(req_templ.text(), req_templ.pattern(), req_templ.attack_type()) {
                Ok(t) => r matches Ok(template) && template@ == t && template_wf(template@),
                Err(e) => r == Err::<Self, TemplateError>(e),
            },
    {
        let lines = split_lines(req_templ.text.as_str());
        if lines.len() == 0 {
            return Err(TemplateError::Empty);
        }
        let words = split_words(lines[0].as_str());
        if words.len() < 3 {
            return Err(TemplateError::InvalidRequestLine);
        }
        if !method_ok(words[0].as_str()) {
            return Err(TemplateError::InvalidMethod);
        }
        let mut template = RequestTemplate {
            req: RequestComponents {
                head: Vec::new(),
                authority: None,
                path: words[1].clone(),
                version: parse_version(words[2].as_str()),
                body: String::new(),
                method: words[0].clone(),
            },
            marked: Vec::new(),
            pattern: req_templ.pattern.clone(),
            attack_type: req_templ.attack_type,
        };
        let ghost all = views(lines@);
        let ghost start = at_request_line(views(words@), req_templ.pattern(), req_templ.attack_type());
        proof {
            assert(views(words@)[0] == words@[0]@);
            assert(views(words@)[1] == words@[1]@);
            assert(views(words@)[2] == words@[2]@);
            assert(header_views(template.req.head@) =~= Seq::empty());
            assert(part_views(template.marked@) =~= Seq::empty());
            assert(template@ == start);
            lemma_parsed_wf(req_templ.text(), req_templ.pattern(), req_templ.attack_type());
        }
        let mut i: usize = 1;
        while i < lines.len()
            invariant
                1 <= i <= lines.len(),
                all == views(lines@),
                after_lines(template@, all, i as int) == after_lines(start, all, 1),
                parsed(req_templ.text(), req_templ.pattern(), req_templ.attack_type())
                    == after_lines(start, all, 1),
                parsed(req_templ.text(), req_templ.pattern(), req_templ.attack_type()) matches Ok(t)
                    ==> template_wf(t),
            decreases lines.len() - i,
        {
            let line = trim(lines[i].as_str());
            proof {
                assert(all[i as int] == lines@[i as int]@);
            }
            if line.as_str().is_empty() {
                let body = join_from(&lines, i + 1);
                template.take_body(body);
                return Ok(template);
            }
            let found = occurs_in(template.pattern.as_str(), line.as_str());
            let kind = read_header_line(line, found);
            match template.take_header(kind) {
                Err(e) => {
                    return Err(e);
                },
                Ok(()) => {},
            }
            i += 1;
        }
        template.take_body(String::new());
        Ok(template)
    }

    /// The header that a marked header line gives with the payload in it.
    fn fill_header(&self, line: &str, pw: &str) -> (r: Option<Header>)
        ensures
            match marked_header(self@.pattern, line@, pw@) {
                Some(header) => r matches Some(h) && h@ == header,
                None => r is None,
            },
    {
        match split_pair(line, ':') {
            None => None,
            Some((key, value)) => {
                let name = substitute(self.pattern.as_str(), key.as_str(), pw);
                let content = substitute(self.pattern.as_str(), value.as_str(), pw);
                if header_name_ok(name.as_str()) && header_value_ok(content.as_str()) {
                    Some(Header { name: name, value: content })
                } else {
                    None
                }
            },
        }
    }

    /// Puts the same payload at every marked position and gives the one
    /// request that results.
    fn battering_ram(&self, pw: &str) -> (r: Result<Vec<RequestComponents>, AttackError>)
        ensures
            match battering_ram_request(self@, pw@) {
                Some(request) => r matches Ok(requests) && request_views(requests@) == seq![request],
                None => r matches Err(e) && e@ == AttackErrorView::InvalidRequest(pw@),
            },
    {
        let mut head = copy_head(&self.req.head);
        let mut body: &String = &self.req.body;
        let mut i: usize = 0;
        while i < self.marked.len()
            invariant
                i <= self.marked.len(),
                battering_ram_from(self@, pw@, i as int, header_views(head@), body@)
                    == battering_ram_request(self@, pw@),
            decreases self.marked.len() - i,
        {
            proof {
                assert(part_views(self.marked@)[i as int] == self.marked@[i as int]@);
            }
            match &self.marked[i] {
                Part::Header(line) => {
                    match self.fill_header(line.as_str(), pw) {
                        None => {
                            return Err(AttackError::InvalidRequest(pw.to_owned()));
                        },
                        Some(h) => {
                            let ghost before = header_views(head@);
                            head.push(h);
                            proof {
                                assert(header_views(head@) =~= before.push(h@));
                            }
                        },
                    }
                },
                Part::Body(text) => {
                    body = text;
                },
            }
            i += 1;
        }
        let request = RequestComponents {
            head: head,
            authority: match &self.req.authority {
                Some(a) => Some(a.clone()),
                None => None,
            },
            path: self.req.path.clone(),
            version: self.req.version,
            body: substitute(self.pattern.as_str(), body.as_str(), pw),
            method: self.req.method.clone(),
        };
        let mut requests: Vec<RequestComponents> = Vec::new();
        requests.push(request);
        proof {
            assert(request_views(requests@) =~= seq![request@]);
        }
        Ok(requests)
    }

    /// One payload for each position and every combination of them: not
    /// available.
    fn cluster_bomb(&self, pw: &str) -> (r: Result<Vec<RequestComponents>, AttackError>)
        ensures
            r matches Err(e) && e@ == AttackErrorView::NotImplemented,
    {
        Err(AttackError::NotImplemented)
    }

    /// One payload for each position, taken in step: not available.
    fn pitchfork(&self, pw: &str) -> (r: Result<Vec<RequestComponents>, AttackError>)
        ensures
            r matches Err(e) && e@ == AttackErrorView::NotImplemented,
    {
        Err(AttackError::NotImplemented)
    }

    /// The payload at one position at a time: not available.
    fn sniper(&self, pw: &str) -> (r: Result<Vec<RequestComponents>, AttackError>)
        ensures
            r matches Err(e) && e@ == AttackErrorView::NotImplemented,
    {
        Err(AttackError::NotImplemented)
    }

    /// Replace the marked Parts with pw and build the requests of one
    /// payload from them.
    ///
    /// Only the battering ram attack gives requests: exactly one for each
    /// payload. Every other attack type fails with `NotImplemented`.
    pub fn replace_then_request(&self, pw: &str) -> (r: Result<GeneratedRequestSet, AttackError>)
        ensures
            match generated(self@, pw@) {
                Ok(requests) => r matches Ok(set) && request_views(set.requests@) == requests
                    && set.payload@ == pw@,
                Err(e) => r matches Err(err) && err@ == e,
            },
            self@.attack_type != AttackType::BatteringRam ==> r matches Err(
                AttackError::NotImplemented,
            ),
            r is Ok ==> r->Ok_0.requests@.len() == 1,
    {
        let requests = match self.attack_type {
            AttackType::BatteringRam => self.battering_ram(pw),
            AttackType::ClusterBomb => self.cluster_bomb(pw),
            AttackType::Pitchfork => self.pitchfork(pw),
            AttackType::Sniper => self.sniper(pw),
        };
        match requests {
            Ok(requests) => {
                assert(request_views(requests@).len() == requests@.len());
                Ok(GeneratedRequestSet { requests: requests, payload: pw.to_owned() })
            },
            Err(e) => Err(e),
        }
    }

    /// The fixed components.
    pub fn req(&self) -> (r: &RequestComponents)
        ensures
            r@ == self@.req,
    {
        &self.req
    }

    /// The marked parts, in the order in which the template has them.
    pub fn marked(&self) -> (r: &Vec<Part>)
        ensures
            part_views(r@) == self@.marked,
    {
        &self.marked
    }

    /// The marker pattern.
    pub fn pattern(&self) -> (r: &String)
        ensures
            r@ == self@.pattern,
    {
        &self.pattern
    }

    /// The attack type.
    pub fn attack_type(&self) -> (r: AttackType)
        ensures
            r == self@.attack_type,
    {
        self.attack_type
    }
}

/// Giving a header a value keeps the names distinct and the headers
/// acceptable.
pub proof fn lemma_with_header_wf(head: Seq<(Seq<char>, Seq<char>)>, name: Seq<char>, value: Seq<char>)
    requires
        head_wf(head),
        header_name_accepted(name),
        header_value_accepted(value),
        name != "Host"@,
        name != "Content-Length"@,
    ensures
        head_wf(with_header(head, name, value)),
{
    lemma_header_index(head, name, 0);
    let i = header_index(head, name, 0);
    let out = with_header(head, name, value);
    if i < head.len() {
        assert forall|a: int, b: int| 0 <= a < b < out.len() implies !same_ignoring_case(
            #[trigger] out[a].0,
            #[trigger] out[b].0,
        ) by {
            assert(out[a].0 == head[a].0);
            assert(out[b].0 == head[b].0);
        }
        assert forall|a: int| 0 <= a < out.len() implies {
            &&& header_name_accepted(#[trigger] out[a].0)
            &&& header_value_accepted(out[a].1)
            &&& out[a].0 != "Host"@
            &&& out[a].0 != "Content-Length"@
        } by {
            assert(out[a].0 == head[a].0);
        }
    } else {
        assert forall|a: int, b: int| 0 <= a < b < out.len() implies !same_ignoring_case(
            #[trigger] out[a].0,
            #[trigger] out[b].0,
        ) by {
            if b < head.len() {
                assert(out[a].0 == head[a].0);
                assert(out[b].0 == head[b].0);
            } else {
                assert(out[a].0 == head[a].0);
                assert(out[b].0 == name);
            }
        }
        assert forall|a: int| 0 <= a < out.len() implies {
            &&& header_name_accepted(#[trigger] out[a].0)
            &&& header_value_accepted(out[a].1)
            &&& out[a].0 != "Host"@
            &&& out[a].0 != "Content-Length"@
        } by {
            if a < head.len() {
                assert(out[a] == head[a]);
            }
        }
    }
}

/// What `header_index` finds.
pub proof fn lemma_header_index(head: Seq<(Seq<char>, Seq<char>)>, name: Seq<char>, from: int)
    requires
        0 <= from <= head.len(),
    ensures
        from <= header_index(head, name, from) <= head.len(),
        header_index(head, name, from) < head.len() ==> same_ignoring_case(
            head[header_index(head, name, from)].0,
            name,
        ),
        forall|i: int|
            from <= i < header_index(head, name, from) ==> !same_ignoring_case(
                (#[trigger] head[i]).0,
                name,
            ),
    decreases head.len() - from,
{
    if from < head.len() && !same_ignoring_case(head[from].0, name) {
        lemma_header_index(head, name, from + 1);
    }
}

/// The state of a template while its header lines are read: the marker
/// occurs in each marked line, and the body is still to come.
pub open spec fn headers_wf(t: TemplateView) -> bool {
    &&& method_accepted(t.req.method)
    &&& t.req.authority matches Some(authority) ==> target_accepted(SCHEME@, authority, t.req.path)
    &&& head_wf(t.req.head)
    &&& forall|i: int|
        0 <= i < t.marked.len() ==> (#[trigger] t.marked[i] matches PartView::Header(line)
            && marker_found(t.pattern, line) && line.len() > 0)
}

proof fn lemma_after_lines_wf(t: TemplateView, lines: Seq<Seq<char>>, i: int)
    requires
        headers_wf(t),
        0 <= i,
    ensures
        after_lines(t, lines, i) matches Ok(out) ==> template_wf(out),
    decreases lines.len() - i,
{
    if i >= lines.len() {
        lemma_with_body_wf(t, Seq::empty());
    } else {
        let line = trimmed(lines[i]);
        if line.len() == 0 {
            lemma_with_body_wf(t, joined(lines, i + 1));
        } else {
            let kind = header_line(line, marker_found(t.pattern, line));
            match after_header(t, kind) {
                Err(e) => {},
                Ok(next) => {
                    match kind {
                        HeaderLineView::Stored(name, value) => {
                            lemma_with_header_wf(t.req.head, name, value);
                        },
                        _ => {},
                    }
                    assert(headers_wf(next));
                    lemma_after_lines_wf(next, lines, i + 1);
                },
            }
        }
    }
}

proof fn lemma_with_body_wf(t: TemplateView, body: Seq<char>)
    requires
        headers_wf(t),
    ensures
        template_wf(with_body(t, body)),
{
    let out = with_body(t, body);
    if marker_found(t.pattern, body) {
        assert(out.marked[out.marked.len() - 1] == PartView::Body(body));
        assert forall|i: int| 0 <= i < out.marked.len() - 1 implies (
        #[trigger] out.marked[i] matches PartView::Header(line) && marker_found(out.pattern, line)
            && line.len() > 0) by {
            assert(out.marked[i] == t.marked[i]);
        }
    }
}

/// Every template that is read from a text is well formed: its method, its
/// target and its fixed headers are accepted, no two fixed headers share a
/// name, and its marked parts are the header lines in which the marker
/// occurs, then the body if the marker occurs in it.
pub proof fn lemma_parsed_wf(text: Seq<char>, pattern: Seq<char>, attack_type: AttackType)
    ensures
        parsed(text, pattern, attack_type) matches Ok(t) ==> template_wf(t),
{
    let lines = lines_of(text);
    if lines.len() > 0 {
        let words = words_of(lines[0]);
        if words.len() >= 3 && method_accepted(words[0]) {
            lemma_after_lines_wf(at_request_line(words, pattern, attack_type), lines, 1);
        }
    }
}


/// The number of marked parts that are header lines: all of them, but for
/// the body where it is marked.
pub open spec fn marked_headers(t: TemplateView) -> int {
    if marker_found(t.pattern, t.req.body) {
        t.marked.len() - 1
    } else {
        t.marked.len() as int
    }
}

proof fn lemma_battering_ram_from(
    t: TemplateView,
    payload: Seq<char>,
    i: int,
    head: Seq<(Seq<char>, Seq<char>)>,
    body: Seq<char>,
)
    requires
        template_wf(t),
        0 <= i <= t.marked.len(),
        body == t.req.body,
    ensures
        battering_ram_from(t, payload, i, head, body) is Some <==> (forall|j: int|
            i <= j < marked_headers(t) ==> marked_header(
                t.pattern,
                (#[trigger] t.marked[j])->Header_0,
                payload,
            ) is Some),
        battering_ram_from(t, payload, i, head, body) matches Some(r) ==> {
            &&& r.method == t.req.method
            &&& r.authority == t.req.authority
            &&& r.path == t.req.path
            &&& r.version == t.req.version
            &&& r.body == substituted(t.pattern, t.req.body, payload)
            &&& r.head.len() == head.len() + if i <= marked_headers(t) {
                marked_headers(t) - i
            } else {
                0
            }
            &&& forall|j: int| 0 <= j < head.len() ==> #[trigger] r.head[j] == head[j]
            &&& forall|j: int|
                i <= j < marked_headers(t) ==> Some(r.head[head.len() + j - i]) == marked_header(
                    t.pattern,
                    (#[trigger] t.marked[j])->Header_0,
                    payload,
                )
        },
    decreases t.marked.len() - i,
{
    if i < t.marked.len() {
        match t.marked[i] {
            PartView::Header(line) => {
                assert(i < marked_headers(t));
                match marked_header(t.pattern, line, payload) {
                    None => {},
                    Some(header) => {
                        lemma_battering_ram_from(t, payload, i + 1, head.push(header), body);
                        let out = battering_ram_from(t, payload, i + 1, head.push(header), body);
                        if out is Some {
                            let r = out->Some_0;
                            assert forall|j: int| 0 <= j < head.len() implies #[trigger] r.head[j]
                                == head[j] by {
                                assert(head.push(header)[j] == head[j]);
                            }
                            assert forall|j: int| i <= j < marked_headers(t) implies Some(
                                r.head[head.len() + j - i],
                            ) == marked_header(
                                t.pattern,
                                (#[trigger] t.marked[j])->Header_0,
                                payload,
                            ) by {
                                if j == i {
                                    assert(r.head[head.len() as int] == head.push(header)[head.len() as int]);
                                } else {
                                    assert(r.head[head.push(header).len() + j - (i + 1)]
                                        == r.head[head.len() + j - i]);
                                }
                            }
                        }
                    },
                }
            },
            PartView::Body(text) => {
                assert(i >= marked_headers(t));
                assert(text == t.req.body);
                lemma_battering_ram_from(t, payload, i + 1, head, text);
            },
        }
    }
}

/// What the request of a battering ram attack holds.
///
/// A request comes of a payload if and only if every marked header line
/// gives a header with the payload in it. The request then has the method,
/// the host, the path and the version of the template. Its headers are the
/// fixed headers of the template, each as the template has it, followed by
/// one header for each marked header line, in their order. Its body is the
/// body of the template with the payload put in; where the body is not
/// marked it is the body of the template as it stands.
pub proof fn lemma_battering_ram(t: TemplateView, payload: Seq<char>)
    requires
        template_wf(t),
    ensures
        battering_ram_request(t, payload) is Some <==> (forall|j: int|
            0 <= j < marked_headers(t) ==> marked_header(
                t.pattern,
                (#[trigger] t.marked[j])->Header_0,
                payload,
            ) is Some),
        battering_ram_request(t, payload) matches Some(r) ==> {
            &&& r.method == t.req.method
            &&& r.authority == t.req.authority
            &&& r.path == t.req.path
            &&& r.version == t.req.version
            &&& r.head.len() == t.req.head.len() + marked_headers(t)
            &&& r.head.subrange(0, t.req.head.len() as int) == t.req.head
            &&& forall|j: int|
                0 <= j < marked_headers(t) ==> Some(r.head[t.req.head.len() + j]) == marked_header(
                    t.pattern,
                    (#[trigger] t.marked[j])->Header_0,
                    payload,
                )
            &&& r.body == substituted(t.pattern, t.req.body, payload)
            &&& marked_headers(t) == t.marked.len() ==> r.body == t.req.body
        },
{
    lemma_battering_ram_from(t, payload, 0, t.req.head, t.req.body);
    if battering_ram_request(t, payload) is Some {
        let r = battering_ram_request(t, payload)->Some_0;
        assert(r.head.subrange(0, t.req.head.len() as int) =~= t.req.head);
    }
}

/// The name of a marked header is kept where the marker does not occur in
/// it: the header that comes of the line has the name that stands before
/// the colon of the line, whatever the payload, and the header written as a
/// line and cut at its colon gives that name again.
pub proof fn lemma_marked_name_kept(pattern: Seq<char>, line: Seq<char>, payload: Seq<char>)
    requires
        pair_at(line, ':') is Some,
        !marker_found(pattern, pair_at(line, ':')->Some_0.0),
        marked_header(pattern, line, payload) is Some,
    ensures
        marked_header(pattern, line, payload)->Some_0.0 == pair_at(line, ':')->Some_0.0,
        pair_at(
            header_text(
                marked_header(pattern, line, payload)->Some_0.0,
                marked_header(pattern, line, payload)->Some_0.1,
            ),
            ':',
        ) is Some,
        pair_at(
            header_text(
                marked_header(pattern, line, payload)->Some_0.0,
                marked_header(pattern, line, payload)->Some_0.1,
            ),
            ':',
        )->Some_0.0 == pair_at(line, ':')->Some_0.0,
{
    let cut = index_of(line, ':', 0);
    let before = line.subrange(0, cut);
    let key = pair_at(line, ':')->Some_0.0;
    let (name, content) = marked_header(pattern, line, payload)->Some_0;
    assert(name == key);
    lemma_index_of_bounds(line, ':', 0);
    lemma_skip_spaces_bounds(before, 0);
    lemma_trim_end_bounds(before, before.len() as int);
    lemma_trimmed_edges(before);
    assert forall|i: int| 0 <= i < key.len() implies key[i] != ':' by {
        assert(key[i] == before[skip_spaces(before, 0) + i]);
    }
    let written = header_text(name, content);
    assert(written[key.len() as int] == ':');
    assert forall|i: int| 0 <= i < key.len() implies written[i] != ':' by {
        assert(written[i] == key[i]);
    }
    lemma_index_of_at(written, ':', 0, key.len() as int);
    assert(written.subrange(0, key.len() as int) =~= key);
    lemma_trimmed_fixed(key);
}


proof fn lemma_after_lines_keeps(t: TemplateView, lines: Seq<Seq<char>>, i: int)
    requires
        0 <= i,
    ensures
        after_lines(t, lines, i) matches Ok(out) ==> out.pattern == t.pattern && out.attack_type
            == t.attack_type && out.req.method == t.req.method && out.req.path == t.req.path
            && out.req.version == t.req.version,
    decreases lines.len() - i,
{
    if i < lines.len() {
        let line = trimmed(lines[i]);
        if line.len() != 0 {
            match after_header(t, header_line(line, marker_found(t.pattern, line))) {
                Err(e) => {},
                Ok(next) => {
                    lemma_after_lines_keeps(next, lines, i + 1);
                },
            }
        }
    }
}

/// A template has the pattern and the attack type that it was read with,
/// and the method, the path and the version of its request line.
pub proof fn lemma_parsed_keeps(text: Seq<char>, pattern: Seq<char>, attack_type: AttackType)
    ensures
        parsed(text, pattern, attack_type) matches Ok(t) ==> {
            &&& t.pattern == pattern
            &&& t.attack_type == attack_type
            &&& t.req.method == words_of(lines_of(text)[0])[0]
            &&& t.req.path == words_of(lines_of(text)[0])[1]
            &&& t.req.version == version_of(words_of(lines_of(text)[0])[2])
        },
{
    let lines = lines_of(text);
    if lines.len() > 0 {
        let words = words_of(lines[0]);
        if words.len() >= 3 && method_accepted(words[0]) {
            lemma_after_lines_keeps(at_request_line(words, pattern, attack_type), lines, 1);
        }
    }
}

} // verus!
