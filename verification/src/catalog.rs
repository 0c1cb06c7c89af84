//! The catalog of panel API routes: route paths as the catalog writes them, and the text
//! a route filter searches.
use vstd::prelude::*;
use crate::apps::rows_view;
use crate::text::{
    ascii_lower, char_pred, chars_of, drop_lead, find_at_or_after, find_from, join, join_with,
    lemma_find_from_some, occurs_at, prefix_of, push_all, same, slice_of, starts_with, string_of,
    string_views, to_ascii_lower, trim_start_char, trim_ws, views, ws_trim,
};

verus! {

broadcast use vstd::string::group_string_axioms;

/// An absolute URL loses its scheme and host: what follows the first `/` after the scheme
/// (the text stays as it is when no `/` follows).
pub open spec fn strip_host(p: Seq<char>, scheme: Seq<char>) -> Seq<char> {
    if prefix_of(scheme, p) {
        let rest = p.skip(scheme.len() as int);
        match find_from(rest, "/"@, 0) {
            Some(k) => rest.skip(k + 1),
            None => p,
        }
    } else {
        p
    }
}

/// A route path as the catalog writes it: `/api/v2/...`, from a bare path, one under
/// `api/v2/`, or a full URL.
pub open spec fn route_path_spec(path: Seq<char>) -> Seq<char> {
    let p = drop_lead(strip_host(strip_host(ws_trim(path), "http://"@), "https://"@), char_pred('/'));
    if p == "api/v2"@ {
        "/api/v2"@
    } else if prefix_of("api/v2/"@, p) {
        "/"@ + p
    } else {
        "/api/v2/"@ + p
    }
}

fn strip_host_exec(p: Vec<char>, scheme: &str) -> (r: Vec<char>)
    ensures
        r@ == strip_host(p@, scheme@),
{
    let s = chars_of(scheme);
    if !starts_with(&p, &s) {
        return p;
    }
    let rest = slice_of(&p, s.len(), p.len());
    assert(rest@ =~= p@.skip(scheme@.len() as int));
    proof {
        reveal_strlit("/");
    }
    let slash = chars_of("/");
    match find_at_or_after(&rest, &slash, 0) {
        Some(k) => {
            proof {
                lemma_find_from_some(rest@, slash@, 0);
            }
            assert(occurs_at(rest@, slash@, k as int));
            let tail = slice_of(&rest, k + 1, rest.len());
            assert(tail@ =~= rest@.skip(k + 1));
            tail
        },
        None => p,
    }
}

/// Writes a route path as the catalog does (see `route_path_spec`).
pub fn normalize_path(path: &str) -> (r: String)
    ensures
        r@ == route_path_spec(path@),
{
    let p = strip_host_exec(strip_host_exec(trim_ws(&chars_of(path)), "http://"), "https://");
    let p = trim_start_char(&p, '/');
    if same(&p, &chars_of("api/v2")) {
        "/api/v2".to_owned()
    } else if starts_with(&p, &chars_of("api/v2/")) {
        let mut out = chars_of("/");
        push_all(&mut out, &p);
        string_of(&out)
    } else {
        let mut out = chars_of("/api/v2/");
        push_all(&mut out, &p);
        string_of(&out)
    }
}

/// A route of the catalog.
pub struct Route {
    pub method: String,
    pub path: String,
    pub handler: String,
    pub source: String,
    pub summary: String,
    pub tags: Vec<String>,
    pub swagger_documented: bool,
}

/// The text a route filter searches: method, path, handler, summary and tags, in lower
/// case.
pub open spec fn route_text_spec(r: Route) -> Seq<char> {
    ascii_lower(
        r.method@ + " "@ + r.path@ + " "@ + r.handler@ + " "@ + r.summary@ + " "@ + join(
            string_views(r.tags@),
            " "@,
        ),
    )
}

pub fn route_text(route: &Route) -> (r: String)
    ensures
        r@ == route_text_spec(*route),
{
    let mut tags: Vec<Vec<char>> = Vec::new();
    let mut i: usize = 0;
    while i < route.tags.len()
        invariant
            0 <= i <= route.tags.len(),
            views(tags@) == string_views(route.tags@.take(i as int)),
        decreases route.tags.len() - i,
    {
        let ghost before = tags@;
        let t = chars_of(route.tags[i].as_str());
        tags.push(t);
        assert(views(tags@) =~= views(before).push(t@));
        assert(string_views(route.tags@.take(i + 1)) =~= string_views(route.tags@.take(i as int)).push(
            route.tags@[i as int]@,
        ));
        i += 1;
    }
    assert(route.tags@.take(route.tags.len() as int) =~= route.tags@);
    let mut t = chars_of(route.method.as_str());
    push_all(&mut t, &chars_of(" "));
    push_all(&mut t, &chars_of(route.path.as_str()));
    push_all(&mut t, &chars_of(" "));
    push_all(&mut t, &chars_of(route.handler.as_str()));
    push_all(&mut t, &chars_of(" "));
    push_all(&mut t, &chars_of(route.summary.as_str()));
    push_all(&mut t, &chars_of(" "));
    push_all(&mut t, &join_with(&tags, &chars_of(" ")));
    string_of(&to_ascii_lower(&t))
}


// ---------------------------------------------------------------------------
// Route order: routes are kept sorted by (method, path), strings compared by code point
// ---------------------------------------------------------------------------

/// `a < b` in the order of `str`'s `Ord`: the first differing character decides, and a
/// proper prefix comes first.
pub open spec fn text_lt(a: Seq<char>, b: Seq<char>) -> bool
    decreases a.len(),
{
    if b.len() == 0 {
        false
    } else if a.len() == 0 {
        true
    } else if a[0] != b[0] {
        (a[0] as int) < (b[0] as int)
    } else {
        text_lt(a.drop_first(), b.drop_first())
    }
}

proof fn lemma_text_lt_irreflexive(a: Seq<char>)
    ensures
        !text_lt(a, a),
    decreases a.len(),
{
    if a.len() > 0 {
        lemma_text_lt_irreflexive(a.drop_first());
    }
}

proof fn lemma_text_lt_transitive(a: Seq<char>, b: Seq<char>, c: Seq<char>)
    requires
        text_lt(a, b),
        text_lt(b, c),
    ensures
        text_lt(a, c),
    decreases a.len(),
{
    if a.len() > 0 && b.len() > 0 && c.len() > 0 && a[0] == b[0] && b[0] == c[0] {
        lemma_text_lt_transitive(a.drop_first(), b.drop_first(), c.drop_first());
    }
}

proof fn lemma_text_lt_total(a: Seq<char>, b: Seq<char>)
    ensures
        a == b || text_lt(a, b) || text_lt(b, a),
    decreases a.len(),
{
    if a.len() > 0 && b.len() > 0 {
        if a[0] == b[0] {
            lemma_text_lt_total(a.drop_first(), b.drop_first());
            if a.drop_first() == b.drop_first() {
                assert(a =~= seq![a[0]] + a.drop_first());
                assert(b =~= seq![b[0]] + b.drop_first());
            }
        }
    } else if a.len() == 0 && b.len() == 0 {
        assert(a =~= b);
    }
}

/// Whether `a` comes before `b` (see `text_lt`).
fn text_less(a: &Vec<char>, b: &Vec<char>) -> (r: bool)
    ensures
        r == text_lt(a@, b@),
{
    let mut i: usize = 0;
    assert(a@.skip(0) =~= a@ && b@.skip(0) =~= b@);
    while i < a.len() && i < b.len()
        invariant
            0 <= i <= a.len(),
            i <= b.len(),
            forall|k: int| 0 <= k < i ==> a@[k] == b@[k],
            text_lt(a@, b@) == text_lt(a@.skip(i as int), b@.skip(i as int)),
        decreases a.len() - i,
    {
        if a[i] != b[i] {
            proof {
                assert(a@.skip(i as int)[0] == a@[i as int]);
                assert(b@.skip(i as int)[0] == b@[i as int]);
            }
            return a[i] < b[i];
        }
        proof {
            assert(a@.skip(i as int).drop_first() =~= a@.skip(i + 1));
            assert(b@.skip(i as int).drop_first() =~= b@.skip(i + 1));
        }
        i += 1;
    }
    i < b.len()
}


/// ASCII upper-casing of one character (`char::to_ascii_uppercase`).
pub open spec fn upper_char(c: char) -> char {
    if 97 <= c as u32 <= 122 {
        ((c as u32 - 32) as u8) as char
    } else {
        c
    }
}

pub open spec fn ascii_upper(s: Seq<char>) -> Seq<char> {
    s.map_values(|c: char| upper_char(c))
}

fn to_ascii_upper(s: &Vec<char>) -> (r: Vec<char>)
    ensures
        r@ == ascii_upper(s@),
{
    let mut r: Vec<char> = Vec::new();
    let mut i: usize = 0;
    while i < s.len()
        invariant
            0 <= i <= s.len(),
            r@ == ascii_upper(s@.take(i as int)),
        decreases s.len() - i,
    {
        let c = s[i];
        let u = c as u32;
        let d = if 97 <= u && u <= 122 {
            ((u - 32) as u8) as char
        } else {
            c
        };
        r.push(d);
        i += 1;
        assert(ascii_upper(s@.take(i as int)) =~= ascii_upper(s@.take(i - 1)).push(
            upper_char(s@[i - 1]),
        ));
    }
    assert(s@.take(s.len() as int) =~= s@);
    r
}

/// A route as plain sequences.
pub struct RouteView {
    pub method: Seq<char>,
    pub path: Seq<char>,
    pub handler: Seq<char>,
    pub source: Seq<char>,
    pub summary: Seq<char>,
    pub tags: Seq<Seq<char>>,
    pub swagger_documented: bool,
}

impl View for Route {
    type V = RouteView;

    open spec fn view(&self) -> RouteView {
        RouteView {
            method: self.method@,
            path: self.path@,
            handler: self.handler@,
            source: self.source@,
            summary: self.summary@,
            tags: string_views(self.tags@),
            swagger_documented: self.swagger_documented,
        }
    }
}

pub open spec fn route_views(s: Seq<Route>) -> Seq<RouteView> {
    s.map_values(|r: Route| r@)
}

/// A route is found by its method and path.
pub open spec fn route_key(r: RouteView) -> (Seq<char>, Seq<char>) {
    (r.method, r.path)
}

/// The order of routes: by method, then by path.
pub open spec fn key_lt(a: (Seq<char>, Seq<char>), b: (Seq<char>, Seq<char>)) -> bool {
    text_lt(a.0, b.0) || (a.0 == b.0 && text_lt(a.1, b.1))
}

proof fn lemma_key_lt_irreflexive(a: (Seq<char>, Seq<char>))
    ensures
        !key_lt(a, a),
{
    lemma_text_lt_irreflexive(a.0);
    lemma_text_lt_irreflexive(a.1);
}

proof fn lemma_key_lt_transitive(a: (Seq<char>, Seq<char>), b: (Seq<char>, Seq<char>), c: (Seq<char>, Seq<char>))
    requires
        key_lt(a, b),
        key_lt(b, c),
    ensures
        key_lt(a, c),
{
    if text_lt(a.0, b.0) && text_lt(b.0, c.0) {
        lemma_text_lt_transitive(a.0, b.0, c.0);
    } else if a.0 == b.0 && b.0 == c.0 {
        lemma_text_lt_transitive(a.1, b.1, c.1);
    }
}

proof fn lemma_key_lt_total(a: (Seq<char>, Seq<char>), b: (Seq<char>, Seq<char>))
    ensures
        a == b || key_lt(a, b) || key_lt(b, a),
{
    lemma_text_lt_total(a.0, b.0);
    lemma_text_lt_total(a.1, b.1);
}

/// One operation of the panel's Swagger document: the HTTP method as Swagger writes it
/// (lower case), the Swagger path, and the summary and tags it gives.
pub struct SwaggerOp {
    pub method: String,
    pub path: String,
    pub summary: String,
    pub tags: Vec<String>,
}

/// The catalog key of a Swagger operation: upper-case method, catalog path.
pub open spec fn op_key(o: SwaggerOp) -> (Seq<char>, Seq<char>) {
    (ascii_upper(o.method@), route_path_spec(o.path@))
}

/// The catalog as a map from key to route; a later route replaces an earlier one with
/// the same key.
pub open spec fn catalog_map(s: Seq<RouteView>) -> Map<(Seq<char>, Seq<char>), RouteView>
    decreases s.len(),
{
    if s.len() == 0 {
        Map::empty()
    } else {
        catalog_map(s.drop_last()).insert(route_key(s.last()), s.last())
    }
}

/// A Swagger operation marks its route documented and fills in an empty summary or empty
/// tags; an operation the catalog lacks adds a route of its own.
pub open spec fn apply_op(m: Map<(Seq<char>, Seq<char>), RouteView>, o: SwaggerOp) -> Map<
    (Seq<char>, Seq<char>),
    RouteView,
> {
    let k = op_key(o);
    if m.contains_key(k) {
        let r = m[k];
        m.insert(
            k,
            RouteView {
                method: r.method,
                path: r.path,
                handler: r.handler,
                source: r.source,
                summary: if r.summary.len() == 0 {
                    o.summary@
                } else {
                    r.summary
                },
                tags: if r.tags.len() == 0 {
                    string_views(o.tags@)
                } else {
                    r.tags
                },
                swagger_documented: true,
            },
        )
    } else {
        m.insert(
            k,
            RouteView {
                method: k.0,
                path: k.1,
                handler: Seq::empty(),
                source: "runtime-swagger"@,
                summary: o.summary@,
                tags: string_views(o.tags@),
                swagger_documented: true,
            },
        )
    }
}

/// The operations applied in order.
pub open spec fn swagger_map(m: Map<(Seq<char>, Seq<char>), RouteView>, ops: Seq<SwaggerOp>) -> Map<
    (Seq<char>, Seq<char>),
    RouteView,
>
    decreases ops.len(),
{
    if ops.len() == 0 {
        m
    } else {
        apply_op(swagger_map(m, ops.drop_last()), ops.last())
    }
}

/// The routes of the catalog merged with the operations of the panel's Swagger document,
/// when it could be had.
pub open spec fn merged_spec(catalog: Seq<Route>, ops: Option<Seq<SwaggerOp>>) -> Map<
    (Seq<char>, Seq<char>),
    RouteView,
> {
    let m = catalog_map(route_views(catalog));
    match ops {
        Some(o) => swagger_map(m, o),
        None => m,
    }
}

/// `v` lists the routes of `m`, each once, in key order.
pub open spec fn lists_map(v: Seq<RouteView>, m: Map<(Seq<char>, Seq<char>), RouteView>) -> bool {
    &&& forall|i: int, j: int|
        0 <= i < j < v.len() ==> #[trigger] key_lt(route_key(v[i]), route_key(v[j]))
    &&& forall|i: int|
        0 <= i < v.len() ==> m.contains_key(route_key(#[trigger] v[i])) && m[route_key(v[i])]
            == v[i]
    &&& forall|k: (Seq<char>, Seq<char>)|
        #[trigger] m.contains_key(k) ==> exists|i: int| 0 <= i < v.len() && route_key(v[i]) == k
}

proof fn lemma_insert_keeps(
    v: Seq<RouteView>,
    m: Map<(Seq<char>, Seq<char>), RouteView>,
    p: int,
    x: RouteView,
)
    requires
        lists_map(v, m),
        0 <= p <= v.len(),
        forall|j: int| 0 <= j < p ==> key_lt(route_key(#[trigger] v[j]), route_key(x)),
        forall|j: int| p <= j < v.len() ==> key_lt(route_key(x), route_key(#[trigger] v[j])),
    ensures
        lists_map(v.insert(p, x), m.insert(route_key(x), x)),
{
    let w = v.insert(p, x);
    let k = route_key(x);
    let m2 = m.insert(k, x);
    assert forall|i: int, j: int| 0 <= i < j < w.len() implies #[trigger] key_lt(
        route_key(w[i]),
        route_key(w[j]),
    ) by {
        if i < p && j > p {
            assert(key_lt(route_key(v[i]), k));
            assert(key_lt(k, route_key(v[j - 1])));
            lemma_key_lt_transitive(route_key(v[i]), k, route_key(v[j - 1]));
        } else if i > p {
            assert(key_lt(route_key(v[i - 1]), route_key(v[j - 1])));
        } else if j < p {
            assert(key_lt(route_key(v[i]), route_key(v[j])));
        } else if i == p {
            assert(key_lt(k, route_key(v[j - 1])));
        } else {
            assert(key_lt(route_key(v[i]), k));
        }
    }
    assert forall|i: int| 0 <= i < w.len() implies m2.contains_key(route_key(#[trigger] w[i]))
        && m2[route_key(w[i])] == w[i] by {
        if i != p {
            let y = if i < p {
                v[i]
            } else {
                v[i - 1]
            };
            assert(w[i] == y);
            assert(key_lt(route_key(y), k) || key_lt(k, route_key(y)));
            lemma_key_lt_irreflexive(k);
            assert(route_key(y) != k);
        }
    }
    assert forall|kk: (Seq<char>, Seq<char>)| #[trigger] m2.contains_key(kk) implies exists|i: int|
        0 <= i < w.len() && route_key(w[i]) == kk by {
        if kk == k {
            assert(route_key(w[p]) == kk);
        } else {
            assert(m.contains_key(kk));
            let i = choose|i: int| 0 <= i < v.len() && route_key(v[i]) == kk;
            if i < p {
                assert(route_key(w[i]) == kk);
            } else {
                assert(route_key(w[i + 1]) == kk);
            }
        }
    }
}

proof fn lemma_replace_keeps(
    v: Seq<RouteView>,
    m: Map<(Seq<char>, Seq<char>), RouteView>,
    p: int,
    x: RouteView,
)
    requires
        lists_map(v, m),
        0 <= p < v.len(),
        route_key(v[p]) == route_key(x),
    ensures
        lists_map(v.update(p, x), m.insert(route_key(x), x)),
{
    let w = v.update(p, x);
    let k = route_key(x);
    let m2 = m.insert(k, x);
    assert forall|i: int, j: int| 0 <= i < j < w.len() implies #[trigger] key_lt(
        route_key(w[i]),
        route_key(w[j]),
    ) by {
        assert(key_lt(route_key(v[i]), route_key(v[j])));
    }
    assert forall|i: int| 0 <= i < w.len() implies m2.contains_key(route_key(#[trigger] w[i]))
        && m2[route_key(w[i])] == w[i] by {
        if i != p {
            lemma_key_lt_irreflexive(k);
            if i < p {
                assert(key_lt(route_key(v[i]), route_key(v[p])));
            } else {
                assert(key_lt(route_key(v[p]), route_key(v[i])));
            }
            assert(route_key(v[i]) != k);
        }
    }
    assert forall|kk: (Seq<char>, Seq<char>)| #[trigger] m2.contains_key(kk) implies exists|i: int|
        0 <= i < w.len() && route_key(w[i]) == kk by {
        if kk == k {
            assert(route_key(w[p]) == kk);
        } else {
            assert(m.contains_key(kk));
            let i = choose|i: int| 0 <= i < v.len() && route_key(v[i]) == kk;
            assert(route_key(w[i]) == kk);
        }
    }
}

fn copy_tags(v: &Vec<String>) -> (r: Vec<String>)
    ensures
        string_views(r@) == string_views(v@),
{
    let mut out: Vec<String> = Vec::new();
    let mut i: usize = 0;
    while i < v.len()
        invariant
            0 <= i <= v.len(),
            string_views(out@) == string_views(v@.take(i as int)),
        decreases v.len() - i,
    {
        let ghost before = out@;
        let t = v[i].clone();
        out.push(t);
        assert(string_views(out@) =~= string_views(before).push(t@));
        assert(string_views(v@.take(i + 1)) =~= string_views(v@.take(i as int)).push(v@[i as int]@));
        i += 1;
    }
    assert(v@.take(v.len() as int) =~= v@);
    out
}

fn copy_route(r: &Route) -> (c: Route)
    ensures
        c@ == r@,
{
    Route {
        method: r.method.clone(),
        path: r.path.clone(),
        handler: r.handler.clone(),
        source: r.source.clone(),
        summary: r.summary.clone(),
        tags: copy_tags(&r.tags),
        swagger_documented: r.swagger_documented,
    }
}

/// Whether route `r` comes before the key (`method`, `path`).
fn key_less(r: &Route, method: &Vec<char>, path: &Vec<char>) -> (b: bool)
    ensures
        b == key_lt(route_key(r@), (method@, path@)),
{
    let m = chars_of(r.method.as_str());
    if text_less(&m, method) {
        return true;
    }
    same(&m, method) && text_less(&chars_of(r.path.as_str()), path)
}

/// Where the key (`method`, `path`) stands in the sorted routes `v`: every route before
/// the index comes before the key; the flag says whether the route at the index has the
/// key, and otherwise every route from the index on comes after it.
fn locate(v: &Vec<Route>, method: &Vec<char>, path: &Vec<char>, Ghost(m): Ghost<
    Map<(Seq<char>, Seq<char>), RouteView>,
>) -> (r: (usize, bool))
    requires
        lists_map(route_views(v@), m),
    ensures
        r.0 <= v.len(),
        forall|j: int| 0 <= j < r.0 ==> key_lt(route_key(#[trigger] route_views(v@)[j]), (method@, path@)),
        r.1 ==> r.0 < v.len() && route_key(route_views(v@)[r.0 as int]) == (method@, path@),
        !r.1 ==> forall|j: int|
            r.0 <= j < v.len() ==> key_lt((method@, path@), route_key(#[trigger] route_views(v@)[j])),
{
    let ghost vs = route_views(v@);
    let ghost k = (method@, path@);
    let mut i: usize = 0;
    while i < v.len() && key_less(&v[i], method, path)
        invariant
            0 <= i <= v.len(),
            vs == route_views(v@),
            k == (method@, path@),
            forall|j: int| 0 <= j < i ==> key_lt(route_key(#[trigger] vs[j]), k),
        decreases v.len() - i,
    {
        assert(vs[i as int] == v@[i as int]@);
        i += 1;
    }
    if i == v.len() {
        return (i, false);
    }
    assert(vs[i as int] == v@[i as int]@);
    assert(!key_lt(route_key(vs[i as int]), k));
    let found = same(&chars_of(v[i].method.as_str()), method) && same(
        &chars_of(v[i].path.as_str()),
        path,
    );
    if !found {
        proof {
            lemma_key_lt_total(route_key(vs[i as int]), k);
            assert(key_lt(k, route_key(vs[i as int])));
            assert forall|j: int| i <= j < v.len() implies key_lt(k, route_key(#[trigger] vs[j])) by {
                if j > i {
                    assert(key_lt(route_key(vs[i as int]), route_key(vs[j])));
                    lemma_key_lt_transitive(k, route_key(vs[i as int]), route_key(vs[j]));
                }
            }
        }
    }
    (i, found)
}

/// Puts route `x` into the sorted routes, in place of the route with its key if there is
/// one.
fn put_route(v: &mut Vec<Route>, x: Route, Ghost(m): Ghost<Map<(Seq<char>, Seq<char>), RouteView>>)
    requires
        lists_map(route_views(old(v)@), m),
    ensures
        lists_map(route_views(final(v)@), m.insert(route_key(x@), x@)),
{
    let method = chars_of(x.method.as_str());
    let path = chars_of(x.path.as_str());
    let (p, found) = locate(v, &method, &path, Ghost(m));
    let ghost vs = route_views(v@);
    let ghost xv = x@;
    if found {
        proof {
            lemma_replace_keeps(vs, m, p as int, xv);
        }
        v.set(p, x);
        assert(route_views(v@) =~= vs.update(p as int, xv));
    } else {
        proof {
            lemma_insert_keeps(vs, m, p as int, xv);
        }
        v.insert(p, x);
        assert(route_views(v@) =~= vs.insert(p as int, xv));
    }
}


/// The route that Swagger operation `o` leaves under its key, given the route `existing`
/// the catalog has there.
fn op_route(o: &SwaggerOp, method: &Vec<char>, path: &Vec<char>, existing: Option<&Route>) -> (r: Route)
    requires
        (method@, path@) == op_key(*o),
    ensures
        apply_op(
            match existing {
                Some(e) => Map::empty().insert(op_key(*o), e@),
                None => Map::empty(),
            },
            *o,
        )[op_key(*o)] == r@,
{
    match existing {
        Some(e) => {
            let summary = if chars_of(e.summary.as_str()).len() == 0 {
                o.summary.clone()
            } else {
                e.summary.clone()
            };
            let tags = if e.tags.len() == 0 {
                copy_tags(&o.tags)
            } else {
                copy_tags(&e.tags)
            };
            Route {
                method: e.method.clone(),
                path: e.path.clone(),
                handler: e.handler.clone(),
                source: e.source.clone(),
                summary,
                tags,
                swagger_documented: true,
            }
        },
        None => Route {
            method: string_of(method),
            path: string_of(path),
            handler: string_of(&Vec::new()),
            source: "runtime-swagger".to_owned(),
            summary: o.summary.clone(),
            tags: copy_tags(&o.tags),
            swagger_documented: true,
        },
    }
}

/// The routes of the catalog merged with the operations of the panel's Swagger document
/// (when it could be had): each method and path once, sorted by method and then path.
/// A Swagger operation marks the catalog's route documented and fills in an empty
/// summary or empty tags; an operation the catalog lacks becomes a route of its own,
/// sourced `runtime-swagger`.
pub fn merged_routes(catalog: &Vec<Route>, ops: Option<&Vec<SwaggerOp>>) -> (r: Vec<Route>)
    ensures
        lists_map(
            route_views(r@),
            merged_spec(
                catalog@,
                match ops {
                    Some(o) => Some(o@),
                    None => None,
                },
            ),
        ),
{
    let mut v: Vec<Route> = Vec::new();
    let mut i: usize = 0;
    assert(route_views(catalog@.take(0)) =~= Seq::<RouteView>::empty());
    while i < catalog.len()
        invariant
            0 <= i <= catalog.len(),
            lists_map(route_views(v@), catalog_map(route_views(catalog@.take(i as int)))),
        decreases catalog.len() - i,
    {
        let ghost m = catalog_map(route_views(catalog@.take(i as int)));
        let x = copy_route(&catalog[i]);
        put_route(&mut v, x, Ghost(m));
        assert(route_views(catalog@.take(i + 1)).drop_last() =~= route_views(catalog@.take(i as int)));
        assert(route_views(catalog@.take(i + 1)).last() == catalog@[i as int]@);
        i += 1;
    }
    assert(catalog@.take(catalog.len() as int) =~= catalog@);
    let ghost cm = catalog_map(route_views(catalog@));
    match ops {
        None => v,
        Some(o) => {
            let mut j: usize = 0;
            assert(o@.take(0) =~= Seq::<SwaggerOp>::empty());
            while j < o.len()
                invariant
                    0 <= j <= o.len(),
                    cm == catalog_map(route_views(catalog@)),
                    lists_map(route_views(v@), swagger_map(cm, o@.take(j as int))),
                decreases o.len() - j,
            {
                let ghost m = swagger_map(cm, o@.take(j as int));
                let op = &o[j];
                let method = to_ascii_upper(&chars_of(op.method.as_str()));
                let path = chars_of(normalize_path(op.path.as_str()).as_str());
                let ghost k = op_key(*op);
                let (p, found) = locate(&v, &method, &path, Ghost(m));
                let ghost vs = route_views(v@);
                let x = if found {
                    assert(vs[p as int] == v@[p as int]@);
                    assert(m.contains_key(k) && m[k] == v@[p as int]@);
                    let x = op_route(op, &method, &path, Some(&v[p]));
                    assert(apply_op(m, *op) == m.insert(k, x@));
                    x
                } else {
                    proof {
                        if m.contains_key(k) {
                            let q = choose|q: int| 0 <= q < vs.len() && route_key(vs[q]) == k;
                            lemma_key_lt_irreflexive(k);
                            if q < p {
                                assert(key_lt(route_key(vs[q]), k));
                            } else {
                                assert(key_lt(k, route_key(vs[q])));
                            }
                        }
                    }
                    let x = op_route(op, &method, &path, None);
                    assert(apply_op(m, *op) == m.insert(k, x@));
                    x
                };
                assert(route_key(x@) == k);
                put_route(&mut v, x, Ghost(m));
                assert(o@.take(j + 1).drop_last() =~= o@.take(j as int));
                assert(o@.take(j + 1).last() == o@[j as int]);
                j += 1;
            }
            assert(o@.take(o.len() as int) =~= o@);
            v
        },
    }
}


/// A route is listed when the filter (lower-cased) is empty or occurs in its search text.
pub open spec fn route_shown(r: Route, needle: Seq<char>) -> bool {
    needle.len() == 0 || crate::text::contains_seq(route_text_spec(r), needle)
}

/// The listed line of a route: method, path, and its summary (its handler when the
/// summary is empty).
pub open spec fn route_line(r: Route) -> Seq<Seq<char>> {
    seq![r.method@, r.path@, if r.summary@.len() == 0 {
        r.handler@
    } else {
        r.summary@
    }]
}

pub open spec fn shown_lines(s: Seq<Route>, needle: Seq<char>) -> Seq<Seq<Seq<char>>>
    decreases s.len(),
{
    if s.len() == 0 {
        Seq::empty()
    } else {
        shown_lines(s.drop_last(), needle) + if route_shown(s.last(), needle) {
            seq![route_line(s.last())]
        } else {
            Seq::empty()
        }
    }
}

/// The lines that `api list --filter` shows, in route order.
pub fn list_rows(routes: &Vec<Route>, filter: &str) -> (r: Vec<Vec<String>>)
    ensures
        rows_view(r@) == shown_lines(routes@, ascii_lower(filter@)),
{
    let needle = to_ascii_lower(&chars_of(filter));
    let mut rows: Vec<Vec<String>> = Vec::new();
    let mut i: usize = 0;
    assert(rows_view(rows@) =~= shown_lines(routes@.take(0), needle@));
    while i < routes.len()
        invariant
            0 <= i <= routes.len(),
            needle@ == ascii_lower(filter@),
            rows_view(rows@) == shown_lines(routes@.take(i as int), needle@),
        decreases routes.len() - i,
    {
        let r = &routes[i];
        let shown = needle.len() == 0 || crate::text::contains(
            &chars_of(route_text(r).as_str()),
            &needle,
        );
        let ghost before = rows@;
        if shown {
            let summary = if chars_of(r.summary.as_str()).len() == 0 {
                r.handler.clone()
            } else {
                r.summary.clone()
            };
            let line = vec![r.method.clone(), r.path.clone(), summary];
            assert(string_views(line@) =~= route_line(*r));
            rows.push(line);
            assert(rows_view(rows@) =~= rows_view(before).push(route_line(*r)));
        }
        assert(routes@.take(i + 1).drop_last() =~= routes@.take(i as int));
        assert(routes@.take(i + 1).last() == *r);
        assert(rows_view(rows@) =~= shown_lines(routes@.take(i + 1), needle@));
        i += 1;
    }
    assert(routes@.take(routes.len() as int) =~= routes@);
    rows
}

/// The route that `api describe` names: its method in upper case and its path as the
/// catalog writes it.
pub fn describe_key(method: &str, path: &str) -> (r: (String, String))
    ensures
        r.0@ == ascii_upper(method@),
        r.1@ == route_path_spec(path@),
{
    (string_of(&to_ascii_upper(&chars_of(method))), normalize_path(path))
}

/// The first route of the catalog with this method and path.
pub fn find_route(routes: &Vec<Route>, method: &str, path: &str) -> (r: Option<usize>)
    ensures
        match r {
            Some(i) => i < routes.len() && routes@[i as int].method@ == method@ && routes@[i as int].path@
                == path@ && forall|j: int|
                0 <= j < i ==> !(routes@[j].method@ == method@ && routes@[j].path@ == path@),
            None => forall|j: int|
                0 <= j < routes.len() ==> !(routes@[j].method@ == method@ && routes@[j].path@ == path@),
        },
{
    let m = chars_of(method);
    let p = chars_of(path);
    let mut i: usize = 0;
    while i < routes.len()
        invariant
            0 <= i <= routes.len(),
            m@ == method@,
            p@ == path@,
            forall|j: int|
                0 <= j < i ==> !(routes@[j].method@ == method@ && routes@[j].path@ == path@),
        decreases routes.len() - i,
    {
        if same(&chars_of(routes[i].method.as_str()), &m) && same(
            &chars_of(routes[i].path.as_str()),
            &p,
        ) {
            return Some(i);
        }
        i += 1;
    }
    None
}

/// The key of a catalog path in the Swagger document: without the `/api/v2` prefix.
pub fn swagger_path(full_path: &str) -> (r: String)
    ensures
        prefix_of("/api/v2"@, full_path@) ==> r@ == full_path@.skip(7),
        !prefix_of("/api/v2"@, full_path@) ==> r@ == full_path@,
{
    let f = chars_of(full_path);
    let pre = chars_of("/api/v2");
    proof {
        reveal_strlit("/api/v2");
    }
    if starts_with(&f, &pre) {
        let rest = slice_of(&f, pre.len(), f.len());
        assert(rest@ =~= full_path@.skip(7));
        string_of(&rest)
    } else {
        full_path.to_owned()
    }
}


proof fn lemma_catalog_map_keys(s: Seq<RouteView>)
    ensures
        forall|k: (Seq<char>, Seq<char>)|
            #[trigger] catalog_map(s).contains_key(k) <==> exists|i: int|
                0 <= i < s.len() && route_key(s[i]) == k,
    decreases s.len(),
{
    if s.len() > 0 {
        let f = s.drop_last();
        lemma_catalog_map_keys(f);
        assert(catalog_map(s) == catalog_map(f).insert(route_key(s.last()), s.last()));
        assert forall|k: (Seq<char>, Seq<char>)|
            #[trigger] catalog_map(s).contains_key(k) <==> exists|i: int|
                0 <= i < s.len() && route_key(s[i]) == k by {
            if catalog_map(s).contains_key(k) {
                if k == route_key(s.last()) {
                    assert(route_key(s[s.len() - 1]) == k);
                } else {
                    assert(catalog_map(f).contains_key(k));
                    let i = choose|i: int| 0 <= i < f.len() && route_key(f[i]) == k;
                    assert(s[i] == f[i]);
                }
            }
            if exists|i: int| 0 <= i < s.len() && route_key(s[i]) == k {
                let i = choose|i: int| 0 <= i < s.len() && route_key(s[i]) == k;
                if i < s.len() - 1 {
                    assert(f[i] == s[i]);
                    assert(catalog_map(f).contains_key(k));
                }
            }
        }
    }
}

proof fn lemma_swagger_map_keys(m: Map<(Seq<char>, Seq<char>), RouteView>, ops: Seq<SwaggerOp>)
    ensures
        forall|k: (Seq<char>, Seq<char>)|
            #[trigger] swagger_map(m, ops).contains_key(k) <==> (m.contains_key(k) || exists|j: int|
                0 <= j < ops.len() && op_key(ops[j]) == k),
        forall|j: int|
            0 <= j < ops.len() ==> (#[trigger] swagger_map(m, ops)[op_key(ops[j])]).swagger_documented,
    decreases ops.len(),
{
    if ops.len() > 0 {
        let f = ops.drop_last();
        lemma_swagger_map_keys(m, f);
        let prev = swagger_map(m, f);
        let o = ops.last();
        assert forall|k: (Seq<char>, Seq<char>)|
            #[trigger] swagger_map(m, ops).contains_key(k) <==> (m.contains_key(k) || exists|j: int|
                0 <= j < ops.len() && op_key(ops[j]) == k) by {
            if swagger_map(m, ops).contains_key(k) && k != op_key(o) {
                assert(prev.contains_key(k));
                if !m.contains_key(k) {
                    let j = choose|j: int| 0 <= j < f.len() && op_key(f[j]) == k;
                    assert(ops[j] == f[j]);
                }
            }
            if k == op_key(o) {
                assert(op_key(ops[ops.len() - 1]) == k);
            }
            if exists|j: int| 0 <= j < ops.len() && op_key(ops[j]) == k {
                let j = choose|j: int| 0 <= j < ops.len() && op_key(ops[j]) == k;
                if j < ops.len() - 1 {
                    assert(f[j] == ops[j]);
                    assert(prev.contains_key(k));
                }
            }
        }
        assert forall|j: int|
            0 <= j < ops.len() implies (#[trigger] swagger_map(m, ops)[op_key(ops[j])]).swagger_documented by {
            let k = op_key(ops[j]);
            if k != op_key(o) {
                assert(f[j] == ops[j]);
                assert(prev[op_key(f[j])].swagger_documented);
            }
        }
    }
}

/// Merging loses no route and invents none: the merged routes are keyed exactly by the
/// catalog's routes and the Swagger document's operations, and every route that the
/// document describes is marked documented.
pub proof fn law_merge_keeps_every_route(catalog: Seq<Route>, ops: Seq<SwaggerOp>)
    ensures
        forall|k: (Seq<char>, Seq<char>)|
            #[trigger] merged_spec(catalog, Some(ops)).contains_key(k) <==> ((exists|i: int|
                0 <= i < catalog.len() && route_key(catalog[i]@) == k) || (exists|j: int|
                0 <= j < ops.len() && op_key(ops[j]) == k)),
        forall|j: int|
            0 <= j < ops.len() ==> (#[trigger] merged_spec(catalog, Some(ops))[op_key(
                ops[j],
            )]).swagger_documented,
        forall|k: (Seq<char>, Seq<char>)|
            #[trigger] merged_spec(catalog, None).contains_key(k) <==> exists|i: int|
                0 <= i < catalog.len() && route_key(catalog[i]@) == k,
{
    let rv = route_views(catalog);
    lemma_catalog_map_keys(rv);
    lemma_swagger_map_keys(catalog_map(rv), ops);
    assert forall|i: int| 0 <= i < catalog.len() implies rv[i] == #[trigger] catalog[i]@ by {}
    assert forall|k: (Seq<char>, Seq<char>)|
        #[trigger] catalog_map(rv).contains_key(k) <==> exists|i: int|
            0 <= i < catalog.len() && route_key(catalog[i]@) == k by {
        if exists|i: int| 0 <= i < rv.len() && route_key(rv[i]) == k {
            let i = choose|i: int| 0 <= i < rv.len() && route_key(rv[i]) == k;
            assert(rv[i] == catalog[i]@);
        }
        if exists|i: int| 0 <= i < catalog.len() && route_key(catalog[i]@) == k {
            let i = choose|i: int| 0 <= i < catalog.len() && route_key(catalog[i]@) == k;
            assert(rv[i] == catalog[i]@);
        }
    }
}

/// Lower-casing keeps an occurrence found inside a part of a text.
proof fn lemma_lower_part_contains(a: Seq<char>, x: Seq<char>, b: Seq<char>, needle: Seq<char>)
    requires
        crate::text::contains_seq(ascii_lower(x), needle),
    ensures
        crate::text::contains_seq(ascii_lower(a + x + b), needle),
{
    let k = choose|k: int| occurs_at(ascii_lower(x), needle, k);
    let whole = ascii_lower(a + x + b);
    assert(whole =~= ascii_lower(a) + ascii_lower(x) + ascii_lower(b));
    let j = a.len() + k;
    assert(whole.subrange(j, j + needle.len()) =~= ascii_lower(x).subrange(k, k + needle.len()));
    assert(occurs_at(whole, needle, j));
}

/// Each part stands in the joined text: it is `before + parts[k] + after` for some texts.
proof fn lemma_join_part(parts: Seq<Seq<char>>, sep: Seq<char>, k: int) -> (ab: (Seq<char>, Seq<char>))
    requires
        0 <= k < parts.len(),
    ensures
        join(parts, sep) == ab.0 + parts[k] + ab.1,
    decreases parts.len(),
{
    if parts.len() == 1 {
        assert(join(parts, sep) =~= Seq::<char>::empty() + parts[k] + Seq::<char>::empty());
        (Seq::empty(), Seq::empty())
    } else if k == parts.len() - 1 {
        let pre = join(parts.drop_last(), sep) + sep;
        assert(join(parts, sep) =~= pre + parts[k] + Seq::<char>::empty());
        (pre, Seq::empty())
    } else {
        let (x, y) = lemma_join_part(parts.drop_last(), sep, k);
        assert(parts.drop_last()[k] == parts[k]);
        let post = y + sep + parts.last();
        assert(join(parts, sep) =~= x + parts[k] + post);
        (x, post)
    }
}

/// A route that the filter allows is among the listed lines.
proof fn lemma_shown_listed(s: Seq<Route>, needle: Seq<char>, i: int)
    requires
        0 <= i < s.len(),
        route_shown(s[i], needle),
    ensures
        shown_lines(s, needle).contains(route_line(s[i])),
    decreases s.len(),
{
    let rest = shown_lines(s.drop_last(), needle);
    let last = if route_shown(s.last(), needle) {
        seq![route_line(s.last())]
    } else {
        Seq::empty()
    };
    assert(shown_lines(s, needle) == rest + last);
    if i == s.len() - 1 {
        assert((rest + last)[rest.len() as int] == route_line(s[i]));
    } else {
        assert(s.drop_last()[i] == s[i]);
        lemma_shown_listed(s.drop_last(), needle, i);
        let j = choose|j: int| 0 <= j < rest.len() && rest[j] == route_line(s[i]);
        assert((rest + last)[j] == route_line(s[i]));
    }
}

/// `api list --filter` searches every field of a route, without regard to ASCII case: a
/// route whose method, path, handler, summary or one of whose tags contains the filter
/// is listed, and with an empty filter every route is.
pub proof fn law_filter_searches_every_field(routes: Seq<Route>, filter: Seq<char>, i: int)
    requires
        0 <= i < routes.len(),
        ({
            let n = ascii_lower(filter);
            let r = routes[i];
            ||| n.len() == 0
            ||| crate::text::contains_seq(ascii_lower(r.method@), n)
            ||| crate::text::contains_seq(ascii_lower(r.path@), n)
            ||| crate::text::contains_seq(ascii_lower(r.handler@), n)
            ||| crate::text::contains_seq(ascii_lower(r.summary@), n)
            ||| exists|k: int|
                0 <= k < r.tags.len() && crate::text::contains_seq(ascii_lower(#[trigger] r.tags@[k]@), n)
        }),
    ensures
        shown_lines(routes, ascii_lower(filter)).contains(route_line(routes[i])),
{
    let n = ascii_lower(filter);
    let r = routes[i];
    let sp = " "@;
    let tags = join(string_views(r.tags@), sp);
    let m = r.method@;
    let p = r.path@;
    let h = r.handler@;
    let u = r.summary@;
    let whole = m + sp + p + sp + h + sp + u + sp + tags;
    assert(route_text_spec(r) == ascii_lower(whole));
    if n.len() > 0 {
        if crate::text::contains_seq(ascii_lower(m), n) {
            lemma_lower_part_contains(Seq::empty(), m, sp + p + sp + h + sp + u + sp + tags, n);
            assert(Seq::<char>::empty() + m + (sp + p + sp + h + sp + u + sp + tags) =~= whole);
        } else if crate::text::contains_seq(ascii_lower(p), n) {
            lemma_lower_part_contains(m + sp, p, sp + h + sp + u + sp + tags, n);
            assert((m + sp) + p + (sp + h + sp + u + sp + tags) =~= whole);
        } else if crate::text::contains_seq(ascii_lower(h), n) {
            lemma_lower_part_contains(m + sp + p + sp, h, sp + u + sp + tags, n);
            assert((m + sp + p + sp) + h + (sp + u + sp + tags) =~= whole);
        } else if crate::text::contains_seq(ascii_lower(u), n) {
            lemma_lower_part_contains(m + sp + p + sp + h + sp, u, sp + tags, n);
            assert((m + sp + p + sp + h + sp) + u + (sp + tags) =~= whole);
        } else {
            let k = choose|k: int|
                0 <= k < r.tags.len() && crate::text::contains_seq(ascii_lower(#[trigger] r.tags@[k]@), n);
            assert(string_views(r.tags@)[k] == r.tags@[k]@);
            let (x, y) = lemma_join_part(string_views(r.tags@), sp, k);
            let t = r.tags@[k]@;
            lemma_lower_part_contains(m + sp + p + sp + h + sp + u + sp + x, t, y, n);
            assert((m + sp + p + sp + h + sp + u + sp + x) + t + y =~= whole);
        }
    }
    assert(route_shown(r, n));
    lemma_shown_listed(routes, n, i);
}

} // verus!
