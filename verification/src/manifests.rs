//! The manifest documents a runtime needs to serve the built application,
//! and their serialization. Each manifest is a plain value built up during
//! chunking and written exactly once at the end of a build; the JSON text is
//! produced here, character for character, against a specification of the
//! format.

use vstd::prelude::*;
use vstd::string::*;

verus! {

// ---------------------------------------------------------------------------
// JSON text.
// ---------------------------------------------------------------------------

/// The escape of one character inside a JSON string literal.
pub open spec fn escape_char(c: char) -> Seq<char> {
    if c == '"' {
        seq!['\\', '"']
    } else if c == '\\' {
        seq!['\\', '\\']
    } else if (c as u32) < 32 {
        seq!['\\', 'u', '0', '0', hex_digit(((c as u32) / 16) as nat), hex_digit(
            ((c as u32) % 16) as nat,
        )]
    } else {
        seq![c]
    }
}

pub open spec fn hex_digit(n: nat) -> char {
    if n == 0 {
        '0'
    } else if n == 1 {
        '1'
    } else if n == 2 {
        '2'
    } else if n == 3 {
        '3'
    } else if n == 4 {
        '4'
    } else if n == 5 {
        '5'
    } else if n == 6 {
        '6'
    } else if n == 7 {
        '7'
    } else if n == 8 {
        '8'
    } else if n == 9 {
        '9'
    } else if n == 10 {
        'a'
    } else if n == 11 {
        'b'
    } else if n == 12 {
        'c'
    } else if n == 13 {
        'd'
    } else if n == 14 {
        'e'
    } else {
        'f'
    }
}

/// A character sequence escaped for a JSON string literal.
pub open spec fn json_escaped(s: Seq<char>) -> Seq<char>
    decreases s.len(),
{
    if s.len() == 0 {
        Seq::<char>::empty()
    } else {
        json_escaped(s.drop_last()) + escape_char(s.last())
    }
}

/// A JSON string literal.
pub open spec fn spec_json_string(s: Seq<char>) -> Seq<char> {
    seq!['"'] + json_escaped(s) + seq!['"']
}

/// The comma-joined body of a JSON array of strings.
pub open spec fn spec_array_body(items: Seq<Seq<char>>) -> Seq<char>
    decreases items.len(),
{
    if items.len() == 0 {
        Seq::<char>::empty()
    } else if items.len() == 1 {
        spec_json_string(items[0])
    } else {
        spec_array_body(items.drop_last()) + seq![','] + spec_json_string(items.last())
    }
}

/// A JSON array of strings.
pub open spec fn spec_json_string_array(items: Seq<Seq<char>>) -> Seq<char> {
    seq!['['] + spec_array_body(items) + seq![']']
}

/// An ordered string map at the ghost level.
pub type PagesMapView = Seq<(Seq<char>, Seq<Seq<char>>)>;

pub open spec fn str_views(v: Seq<String>) -> Seq<Seq<char>> {
    v.map_values(|s: String| s@)
}

pub open spec fn pages_map_view(v: Seq<(String, Vec<String>)>) -> PagesMapView {
    v.map_values(|p: (String, Vec<String>)| (p.0@, str_views(p.1@)))
}

/// The comma-joined body of a JSON object mapping keys to string arrays.
pub open spec fn spec_pages_body(pairs: PagesMapView) -> Seq<char>
    decreases pairs.len(),
{
    if pairs.len() == 0 {
        Seq::<char>::empty()
    } else if pairs.len() == 1 {
        spec_json_string(pairs[0].0) + seq![':'] + spec_json_string_array(pairs[0].1)
    } else {
        spec_pages_body(pairs.drop_last()) + seq![','] + spec_json_string(pairs.last().0)
            + seq![':'] + spec_json_string_array(pairs.last().1)
    }
}

/// A JSON object mapping keys to string arrays.
pub open spec fn spec_pages_object(pairs: PagesMapView) -> Seq<char> {
    seq!['{'] + spec_pages_body(pairs) + seq!['}']
}

fn hex_digit_str(n: u32) -> (r: &'static str)
    requires
        n < 16,
    ensures
        r@ == seq![hex_digit(n as nat)],
{
    proof {
        reveal_strlit("0");
        reveal_strlit("1");
        reveal_strlit("2");
        reveal_strlit("3");
        reveal_strlit("4");
        reveal_strlit("5");
        reveal_strlit("6");
        reveal_strlit("7");
        reveal_strlit("8");
        reveal_strlit("9");
        reveal_strlit("a");
        reveal_strlit("b");
        reveal_strlit("c");
        reveal_strlit("d");
        reveal_strlit("e");
        reveal_strlit("f");
    }
    if n == 0 {
        "0"
    } else if n == 1 {
        "1"
    } else if n == 2 {
        "2"
    } else if n == 3 {
        "3"
    } else if n == 4 {
        "4"
    } else if n == 5 {
        "5"
    } else if n == 6 {
        "6"
    } else if n == 7 {
        "7"
    } else if n == 8 {
        "8"
    } else if n == 9 {
        "9"
    } else if n == 10 {
        "a"
    } else if n == 11 {
        "b"
    } else if n == 12 {
        "c"
    } else if n == 13 {
        "d"
    } else if n == 14 {
        "e"
    } else {
        "f"
    }
}

/// Appends `s`, escaped for a JSON string literal, to `out`.
fn json_escape_into(out: &mut String, s: &str)
    ensures
        final(out)@ == old(out)@ + json_escaped(s@),
{
    let n = s.unicode_len();
    let mut i: usize = 0;
    proof {
        assert(json_escaped(s@.subrange(0, 0)) =~= Seq::<char>::empty());
        assert(old(out)@ + Seq::<char>::empty() =~= old(out)@);
    }
    while i < n
        invariant
            i <= n,
            n == s@.len(),
            out@ == old(out)@ + json_escaped(s@.subrange(0, i as int)),
        decreases n - i,
    {
        let c = s.get_char(i);
        let ghost out_pre = out@;
        if c == '"' {
            out.append("\\\"");
            proof {
                reveal_strlit("\\\"");
                assert("\\\""@ =~= seq!['\\', '"']);
            }
        } else if c == '\\' {
            out.append("\\\\");
            proof {
                reveal_strlit("\\\\");
                assert("\\\\"@ =~= seq!['\\', '\\']);
            }
        } else if (c as u32) < 32 {
            out.append("\\u00");
            out.append(hex_digit_str((c as u32) / 16));
            out.append(hex_digit_str((c as u32) % 16));
            proof {
                reveal_strlit("\\u00");
                assert("\\u00"@ =~= seq!['\\', 'u', '0', '0']);
            }
        } else {
            let piece = s.substring_char(i, i + 1);
            out.append(piece);
            proof {
                assert(s@.subrange(i as int, (i + 1) as int) =~= seq![s@[i as int]]);
            }
        }
        proof {
            assert(out@ =~= out_pre + escape_char(s@[i as int]));
            let sub2 = s@.subrange(0, (i + 1) as int);
            assert(sub2.drop_last() =~= s@.subrange(0, i as int));
            assert(sub2.last() == s@[i as int]);
            assert(out@ =~= old(out)@ + json_escaped(sub2));
        }
        i += 1;
    }
    proof {
        assert(s@.subrange(0, n as int) =~= s@);
    }
}

/// Appends the JSON string literal for `s` to `out`.
fn json_string_into(out: &mut String, s: &str)
    ensures
        final(out)@ == old(out)@ + spec_json_string(s@),
{
    proof {
        reveal_strlit("\"");
        assert("\""@ =~= seq!['"']);
    }
    out.append("\"");
    json_escape_into(out, s);
    out.append("\"");
    proof {
        assert(final(out)@ =~= old(out)@ + spec_json_string(s@));
    }
}

/// Appends the JSON array of the strings in `items` to `out`.
fn json_string_array_into(out: &mut String, items: &Vec<String>)
    ensures
        final(out)@ == old(out)@ + spec_json_string_array(str_views(items@)),
{
    proof {
        reveal_strlit("[");
        reveal_strlit("]");
        reveal_strlit(",");
        assert("["@ =~= seq!['[']);
        assert("]"@ =~= seq![']']);
        assert(","@ =~= seq![',']);
    }
    out.append("[");
    let ghost body_start = out@;
    let mut i: usize = 0;
    proof {
        assert(spec_array_body(str_views(items@).subrange(0, 0)) =~= Seq::<char>::empty());
        assert(out@ =~= body_start + Seq::<char>::empty());
    }
    while i < items.len()
        invariant
            i <= items@.len(),
            out@ == body_start + spec_array_body(str_views(items@).subrange(0, i as int)),
        decreases items@.len() - i,
    {
        let ghost out_pre = out@;
        if i > 0 {
            out.append(",");
        }
        json_string_into(out, items[i].as_str());
        proof {
            reveal_strlit("[");
            reveal_strlit("]");
            reveal_strlit(",");
            let views = str_views(items@);
            let sub2 = views.subrange(0, (i + 1) as int);
            assert(sub2.drop_last() =~= views.subrange(0, i as int));
            assert(sub2.last() == items@[i as int]@);
            if i == 0 {
                assert(sub2.len() == 1);
                assert(sub2[0] == items@[0]@);
                assert(spec_array_body(views.subrange(0, 0)) == Seq::<char>::empty());
                assert(out_pre =~= body_start);
                assert(out_pre == body_start);
                assert(spec_array_body(sub2) == spec_json_string(items@[0]@));
                assert(out@ == out_pre + spec_json_string(items@[0]@));
                assert(out@ == body_start + spec_array_body(sub2));
            } else {
                let b = spec_array_body(views.subrange(0, i as int));
                let j = spec_json_string(items@[i as int]@);
                assert(spec_array_body(sub2) == (b + seq![',']) + j);
                assert(","@ =~= seq![',']);
                assert(out@ == ((body_start + b) + seq![',']) + j);
                vstd::seq_lib::lemma_concat_associative(body_start, b, seq![',']);
                vstd::seq_lib::lemma_concat_associative(body_start, b + seq![','], j);
                assert(out@ == body_start + spec_array_body(sub2));
            }
        }
        i += 1;
    }
    out.append("]");
    proof {
        assert(str_views(items@).subrange(0, items@.len() as int) =~= str_views(items@));
        assert(final(out)@ =~= old(out)@ + spec_json_string_array(str_views(items@)));
    }
}

/// Appends the JSON object mapping each key of `pairs` to its string array.
fn pages_object_into(out: &mut String, pairs: &Vec<(String, Vec<String>)>)
    ensures
        final(out)@ == old(out)@ + spec_pages_object(pages_map_view(pairs@)),
{
    proof {
        reveal_strlit("{");
        reveal_strlit("}");
        reveal_strlit(",");
        reveal_strlit(":");
        assert("{"@ =~= seq!['{']);
        assert("}"@ =~= seq!['}']);
        assert(","@ =~= seq![',']);
        assert(":"@ =~= seq![':']);
    }
    out.append("{");
    let ghost body_start = out@;
    let mut i: usize = 0;
    proof {
        assert(spec_pages_body(pages_map_view(pairs@).subrange(0, 0)) =~= Seq::<char>::empty());
        assert(out@ =~= body_start + Seq::<char>::empty());
    }
    while i < pairs.len()
        invariant
            i <= pairs@.len(),
            out@ == body_start + spec_pages_body(pages_map_view(pairs@).subrange(0, i as int)),
        decreases pairs@.len() - i,
    {
        let ghost out_pre = out@;
        if i > 0 {
            out.append(",");
        }
        json_string_into(out, pairs[i].0.as_str());
        out.append(":");
        json_string_array_into(out, &pairs[i].1);
        proof {
            reveal_strlit("{");
            reveal_strlit("}");
            reveal_strlit(",");
            reveal_strlit(":");
            let views = pages_map_view(pairs@);
            let sub2 = views.subrange(0, (i + 1) as int);
            let k = pairs@[i as int].0@;
            let v = str_views(pairs@[i as int].1@);
            assert(sub2.drop_last() =~= views.subrange(0, i as int));
            assert(sub2.last() == (k, v));
            if i == 0 {
                assert(sub2.len() == 1);
                assert(sub2[0] == (k, v));
                assert(spec_pages_body(views.subrange(0, 0)) == Seq::<char>::empty());
                assert(out_pre =~= body_start);
                assert(out_pre == body_start);
                let jk = spec_json_string(k);
                let av = spec_json_string_array(v);
                assert(spec_pages_body(sub2) == (jk + seq![':']) + av);
                assert(":"@ =~= seq![':']);
                assert(out@ == ((out_pre + jk) + seq![':']) + av);
                vstd::seq_lib::lemma_concat_associative(body_start, jk, seq![':']);
                vstd::seq_lib::lemma_concat_associative(body_start, jk + seq![':'], av);
                assert(out@ == body_start + spec_pages_body(sub2));
            } else {
                let b = spec_pages_body(views.subrange(0, i as int));
                let jk = spec_json_string(k);
                let av = spec_json_string_array(v);
                assert(spec_pages_body(sub2) == (((b + seq![',']) + jk) + seq![':']) + av);
                assert(","@ =~= seq![',']);
                assert(":"@ =~= seq![':']);
                assert(out@ == ((((body_start + b) + seq![',']) + jk) + seq![':']) + av);
                vstd::seq_lib::lemma_concat_associative(body_start, b, seq![',']);
                vstd::seq_lib::lemma_concat_associative(body_start, b + seq![','], jk);
                vstd::seq_lib::lemma_concat_associative(body_start, (b + seq![',']) + jk, seq![':']);
                vstd::seq_lib::lemma_concat_associative(
                    body_start,
                    ((b + seq![',']) + jk) + seq![':'],
                    av,
                );
                assert(out@ == body_start + spec_pages_body(sub2));
            }
        }
        i += 1;
    }
    out.append("}");
    proof {
        assert(pages_map_view(pairs@).subrange(0, pairs@.len() as int) =~= pages_map_view(pairs@));
        assert(final(out)@ =~= old(out)@ + spec_pages_object(pages_map_view(pairs@)));
    }
}

// ---------------------------------------------------------------------------
// String-to-string JSON objects.
// ---------------------------------------------------------------------------

pub type PathsMapView = Seq<(Seq<char>, Seq<char>)>;

pub open spec fn paths_map_view(v: Seq<(String, String)>) -> PathsMapView {
    v.map_values(|p: (String, String)| (p.0@, p.1@))
}

/// The comma-joined body of a JSON object mapping keys to strings.
pub open spec fn spec_paths_body(pairs: PathsMapView) -> Seq<char>
    decreases pairs.len(),
{
    if pairs.len() == 0 {
        Seq::<char>::empty()
    } else if pairs.len() == 1 {
        spec_json_string(pairs[0].0) + seq![':'] + spec_json_string(pairs[0].1)
    } else {
        spec_paths_body(pairs.drop_last()) + seq![','] + spec_json_string(pairs.last().0)
            + seq![':'] + spec_json_string(pairs.last().1)
    }
}

pub open spec fn spec_paths_object(pairs: PathsMapView) -> Seq<char> {
    seq!['{'] + spec_paths_body(pairs) + seq!['}']
}

/// Appends the JSON object mapping each key of `pairs` to its string.
fn paths_object_into(out: &mut String, pairs: &Vec<(String, String)>)
    ensures
        final(out)@ == old(out)@ + spec_paths_object(paths_map_view(pairs@)),
{
    proof {
        reveal_strlit("{");
        reveal_strlit("}");
        assert("{"@ =~= seq!['{']);
        assert("}"@ =~= seq!['}']);
    }
    out.append("{");
    let ghost body_start = out@;
    let mut i: usize = 0;
    proof {
        assert(spec_paths_body(paths_map_view(pairs@).subrange(0, 0)) =~= Seq::<char>::empty());
        assert(out@ =~= body_start + Seq::<char>::empty());
    }
    while i < pairs.len()
        invariant
            i <= pairs@.len(),
            out@ == body_start + spec_paths_body(paths_map_view(pairs@).subrange(0, i as int)),
        decreases pairs@.len() - i,
    {
        let ghost out_pre = out@;
        if i > 0 {
            out.append(",");
        }
        json_string_into(out, pairs[i].0.as_str());
        out.append(":");
        json_string_into(out, pairs[i].1.as_str());
        proof {
            reveal_strlit(",");
            reveal_strlit(":");
            assert(","@ =~= seq![',']);
            assert(":"@ =~= seq![':']);
            let views = paths_map_view(pairs@);
            let sub2 = views.subrange(0, (i + 1) as int);
            let k = pairs@[i as int].0@;
            let v = pairs@[i as int].1@;
            assert(sub2.drop_last() =~= views.subrange(0, i as int));
            assert(sub2.last() == (k, v));
            let jk = spec_json_string(k);
            let jv = spec_json_string(v);
            if i == 0 {
                assert(sub2.len() == 1);
                assert(sub2[0] == (k, v));
                assert(spec_paths_body(views.subrange(0, 0)) == Seq::<char>::empty());
                assert(out_pre =~= body_start);
                assert(out_pre == body_start);
                assert(spec_paths_body(sub2) == (jk + seq![':']) + jv);
                assert(out@ == ((out_pre + jk) + seq![':']) + jv);
                vstd::seq_lib::lemma_concat_associative(body_start, jk, seq![':']);
                vstd::seq_lib::lemma_concat_associative(body_start, jk + seq![':'], jv);
                assert(out@ == body_start + spec_paths_body(sub2));
            } else {
                let b = spec_paths_body(views.subrange(0, i as int));
                assert(spec_paths_body(sub2) == (((b + seq![',']) + jk) + seq![':']) + jv);
                assert(out@ == ((((body_start + b) + seq![',']) + jk) + seq![':']) + jv);
                vstd::seq_lib::lemma_concat_associative(body_start, b, seq![',']);
                vstd::seq_lib::lemma_concat_associative(body_start, b + seq![','], jk);
                vstd::seq_lib::lemma_concat_associative(
                    body_start,
                    (b + seq![',']) + jk,
                    seq![':'],
                );
                vstd::seq_lib::lemma_concat_associative(
                    body_start,
                    ((b + seq![',']) + jk) + seq![':'],
                    jv,
                );
                assert(out@ == body_start + spec_paths_body(sub2));
            }
        }
        i += 1;
    }
    out.append("}");
    proof {
        assert(paths_map_view(pairs@).subrange(0, pairs@.len() as int) =~= paths_map_view(pairs@));
        assert(final(out)@ =~= old(out)@ + spec_paths_object(paths_map_view(pairs@)));
    }
}

// ---------------------------------------------------------------------------
// The manifest documents.
// ---------------------------------------------------------------------------

/// Pages manifest: pathname to the list of server dependency files.
#[derive(Debug)]
pub struct PagesManifest {
    pub pages: Vec<(String, Vec<String>)>,
}

/// App build manifest: app-route pathname to its dependency files.
#[derive(Debug)]
pub struct AppBuildManifest {
    pub pages: Vec<(String, Vec<String>)>,
}

/// App paths manifest: app-route pathname to its server entry path.
#[derive(Debug)]
pub struct AppPathsManifest {
    pub node_server_app_paths: Vec<(String, String)>,
}

/// Build manifest: each page's client dependency files, plus the
/// low-priority client files (the legacy runtime snippets, when produced).
#[derive(Debug)]
pub struct BuildManifest {
    pub pages: Vec<(String, Vec<String>)>,
    pub low_priority_files: Vec<String>,
}

pub open spec fn spec_pages_manifest_json(pages: PagesMapView) -> Seq<char> {
    "{\"pages\":"@ + spec_pages_object(pages) + "}"@
}

pub open spec fn spec_build_manifest_json(pages: PagesMapView, low: Seq<Seq<char>>) -> Seq<char> {
    "{\"pages\":"@ + spec_pages_object(pages) + ",\"lowPriorityFiles\":"@
        + spec_json_string_array(low) + "}"@
}

pub open spec fn spec_app_paths_manifest_json(paths: PathsMapView) -> Seq<char> {
    "{\"node_server_app_paths\":"@ + spec_paths_object(paths) + "}"@
}

impl PagesManifest {
    pub fn new() -> (r: PagesManifest)
        ensures
            r.pages@.len() == 0,
    {
        PagesManifest { pages: Vec::new() }
    }

    pub fn to_json(&self) -> (r: String)
        ensures
            r@ == spec_pages_manifest_json(pages_map_view(self.pages@)),
    {
        let mut out = "{\"pages\":".to_owned();
        pages_object_into(&mut out, &self.pages);
        out.append("}");
        out
    }
}

impl AppBuildManifest {
    pub fn new() -> (r: AppBuildManifest)
        ensures
            r.pages@.len() == 0,
    {
        AppBuildManifest { pages: Vec::new() }
    }

    pub fn to_json(&self) -> (r: String)
        ensures
            r@ == spec_pages_manifest_json(pages_map_view(self.pages@)),
    {
        let mut out = "{\"pages\":".to_owned();
        pages_object_into(&mut out, &self.pages);
        out.append("}");
        out
    }
}

impl AppPathsManifest {
    pub fn new() -> (r: AppPathsManifest)
        ensures
            r.node_server_app_paths@.len() == 0,
    {
        AppPathsManifest { node_server_app_paths: Vec::new() }
    }

    pub fn to_json(&self) -> (r: String)
        ensures
            r@ == spec_app_paths_manifest_json(paths_map_view(self.node_server_app_paths@)),
    {
        let mut out = "{\"node_server_app_paths\":".to_owned();
        paths_object_into(&mut out, &self.node_server_app_paths);
        out.append("}");
        out
    }
}

impl BuildManifest {
    pub fn new() -> (r: BuildManifest)
        ensures
            r.pages@.len() == 0,
            r.low_priority_files@.len() == 0,
    {
        BuildManifest { pages: Vec::new(), low_priority_files: Vec::new() }
    }

    pub fn to_json(&self) -> (r: String)
        ensures
            r@ == spec_build_manifest_json(
                pages_map_view(self.pages@),
                str_views(self.low_priority_files@),
            ),
    {
        let mut out = "{\"pages\":".to_owned();
        pages_object_into(&mut out, &self.pages);
        out.append(",\"lowPriorityFiles\":");
        json_string_array_into(&mut out, &self.low_priority_files);
        out.append("}");
        out
    }
}

/// The default empty shape of the middleware manifest, so that the runtime
/// always finds a well-formed file.
pub fn middlewares_manifest_json() -> (r: String)
    ensures
        r@ == "{\"sortedMiddleware\":[],\"middleware\":{},\"functions\":{},\"version\":2}"@,
{
    String::from_str("{\"sortedMiddleware\":[],\"middleware\":{},\"functions\":{},\"version\":2}")
}

/// The default empty shape shared by the next-font, font, server-reference
/// and react-loadable manifests.
pub fn empty_manifest_json() -> (r: String)
    ensures
        r@ == "{}"@,
{
    String::from_str("{}")
}

// ---------------------------------------------------------------------------
// Legacy runtime snippets.
// ---------------------------------------------------------------------------

/// The SSG manifest snippet: a JS statement assigning the global set and
/// invoking its optional callback.
pub fn ssg_manifest_snippet() -> (r: String)
    ensures
        r@ == "self.__SSG_MANIFEST=new Set;self.__SSG_MANIFEST_CB&&self.__SSG_MANIFEST_CB()"@,
{
    String::from_str(
        "self.__SSG_MANIFEST=new Set;self.__SSG_MANIFEST_CB&&self.__SSG_MANIFEST_CB()",
    )
}

pub open spec fn spec_client_manifest_snippet(json: Seq<char>) -> Seq<char> {
    "self.__BUILD_MANIFEST="@ + json
        + ";self.__BUILD_MANIFEST_CB && self.__BUILD_MANIFEST_CB()"@
}

/// The client build manifest snippet: a JS statement assigning the manifest
/// object to the global and invoking its optional callback.
pub fn client_manifest_snippet(json: &str) -> (r: String)
    ensures
        r@ == spec_client_manifest_snippet(json@),
{
    let mut out = "self.__BUILD_MANIFEST=".to_owned();
    out.append(json);
    out.append(";self.__BUILD_MANIFEST_CB && self.__BUILD_MANIFEST_CB()");
    out
}

/// The sorted-route client manifest: the route rewrites (already encoded),
/// each page's filtered dependencies, and the sorted page list.
#[derive(Debug)]
pub struct ClientBuildManifest {
    pub rewrites: String,
    pub sorted_pages: Vec<String>,
    pub pages: Vec<(String, Vec<String>)>,
}

/// Each page entry with a trailing comma, since the sorted page list always
/// follows.
pub open spec fn spec_client_manifest_entries(pairs: PagesMapView) -> Seq<char>
    decreases pairs.len(),
{
    if pairs.len() == 0 {
        Seq::<char>::empty()
    } else {
        spec_client_manifest_entries(pairs.drop_last()) + spec_json_string(pairs.last().0)
            + seq![':'] + spec_json_string_array(pairs.last().1) + seq![',']
    }
}

pub open spec fn spec_client_build_manifest_json(
    rewrites: Seq<char>,
    sorted: Seq<Seq<char>>,
    pages: PagesMapView,
) -> Seq<char> {
    "{\"__rewrites\":"@ + rewrites + seq![','] + spec_client_manifest_entries(pages)
        + "\"sortedPages\":"@ + spec_json_string_array(sorted) + "}"@
}

impl ClientBuildManifest {
    pub fn to_json(&self) -> (r: String)
        ensures
            r@ == spec_client_build_manifest_json(
                self.rewrites@,
                str_views(self.sorted_pages@),
                pages_map_view(self.pages@),
            ),
    {
        let mut out = "{\"__rewrites\":".to_owned();
        out.append(self.rewrites.as_str());
        out.append(",");
        proof {
            reveal_strlit(",");
            assert(","@ =~= seq![',']);
        }
        let ghost entries_start = out@;
        let mut i: usize = 0;
        proof {
            assert(spec_client_manifest_entries(pages_map_view(self.pages@).subrange(0, 0))
                =~= Seq::<char>::empty());
            assert(out@ =~= entries_start + Seq::<char>::empty());
        }
        while i < self.pages.len()
            invariant
                i <= self.pages@.len(),
                out@ == entries_start + spec_client_manifest_entries(
                    pages_map_view(self.pages@).subrange(0, i as int),
                ),
            decreases self.pages@.len() - i,
        {
            let ghost out_pre = out@;
            json_string_into(&mut out, self.pages[i].0.as_str());
            out.append(":");
            json_string_array_into(&mut out, &self.pages[i].1);
            out.append(",");
            proof {
                reveal_strlit(",");
                reveal_strlit(":");
                assert(","@ =~= seq![',']);
                assert(":"@ =~= seq![':']);
                let views = pages_map_view(self.pages@);
                let sub2 = views.subrange(0, (i + 1) as int);
                let k = self.pages@[i as int].0@;
                let v = str_views(self.pages@[i as int].1@);
                assert(sub2.drop_last() =~= views.subrange(0, i as int));
                assert(sub2.last() == (k, v));
                let b = spec_client_manifest_entries(views.subrange(0, i as int));
                let jk = spec_json_string(k);
                let av = spec_json_string_array(v);
                assert(spec_client_manifest_entries(sub2) == (((b + jk) + seq![':']) + av)
                    + seq![',']);
                assert(out@ == ((((out_pre + jk) + seq![':']) + av) + seq![',']));
                vstd::seq_lib::lemma_concat_associative(entries_start, b, jk);
                vstd::seq_lib::lemma_concat_associative(entries_start, b + jk, seq![':']);
                vstd::seq_lib::lemma_concat_associative(entries_start, (b + jk) + seq![':'], av);
                vstd::seq_lib::lemma_concat_associative(
                    entries_start,
                    ((b + jk) + seq![':']) + av,
                    seq![','],
                );
                assert(out@ == entries_start + spec_client_manifest_entries(sub2));
            }
            i += 1;
        }
        proof {
            assert(pages_map_view(self.pages@).subrange(0, self.pages@.len() as int)
                =~= pages_map_view(self.pages@));
        }
        out.append("\"sortedPages\":");
        json_string_array_into(&mut out, &self.sorted_pages);
        out.append("}");
        proof {
            assert(out@ =~= spec_client_build_manifest_json(
                self.rewrites@,
                str_views(self.sorted_pages@),
                pages_map_view(self.pages@),
            ));
        }
        out
    }
}

} // verus!
