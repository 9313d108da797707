//! Routers for modular route organization: routes grouped with a shared
//! prefix, tags, dependencies and response definitions, and the rules by
//! which an included router's configuration is merged into its routes.
//!
//! Handlers and dependency functions are kept by the application in tables;
//! routes and dependencies refer to them by index.
use vstd::prelude::*;
use std::collections::HashMap;
use vstd::std_specs::iter::IteratorSpec;
use crate::method::Method;
use crate::text::{chars_of, push_char, string_from_chars, strings_view};

verus! {

broadcast use vstd::std_specs::hash::group_hash_axioms;

// ---------------------------------------------------------------------------
// Paths
// ---------------------------------------------------------------------------

/// `s` without its trailing `c`s.
pub open spec fn trim_end_char(s: Seq<char>, c: char) -> Seq<char>
    decreases s.len(),
{
    if s.len() > 0 && s.last() == c {
        trim_end_char(s.drop_last(), c)
    } else {
        s
    }
}

/// `s` without its leading `c`s.
pub open spec fn trim_start_char(s: Seq<char>, c: char) -> Seq<char>
    decreases s.len(),
{
    if s.len() > 0 && s[0] == c {
        trim_start_char(s.drop_first(), c)
    } else {
        s
    }
}

/// Two path segments joined with exactly one slash between them.
pub open spec fn combined_path(prefix: Seq<char>, path: Seq<char>) -> Seq<char> {
    if prefix.len() == 0 && path.len() == 0 {
        seq!['/']
    } else if prefix.len() == 0 {
        if path[0] == '/' {
            path
        } else {
            seq!['/'] + path
        }
    } else if path.len() == 0 {
        prefix
    } else {
        let p = trim_end_char(prefix, '/');
        let q = trim_start_char(path, '/');
        if q.len() == 0 {
            p
        } else {
            p + seq!['/'] + q
        }
    }
}

/// Joining a prefix without a trailing slash and a path that starts with
/// exactly one slash is plain concatenation, so prefixes nest as written.
pub proof fn lemma_combine_clean(prefix: Seq<char>, path: Seq<char>)
    requires
        prefix.len() > 0,
        prefix.last() != '/',
        path.len() >= 2,
        path[0] == '/',
        path[1] != '/',
    ensures
        combined_path(prefix, path) == prefix + path,
{
    assert(trim_end_char(prefix, '/') == prefix);
    assert(path.drop_first()[0] == path[1]);
    assert(trim_start_char(path.drop_first(), '/') == path.drop_first());
    assert(trim_start_char(path, '/') == path.drop_first());
    assert(prefix + seq!['/'] + path.drop_first() =~= prefix + path);
}

/// The number of `c`s at the end of `cs`.
fn trailing_count(cs: &Vec<char>, c: char) -> (n: usize)
    ensures
        n <= cs@.len(),
        trim_end_char(cs@, c) == cs@.take(cs@.len() - n),
{
    let mut end = cs.len();
    assert(cs@.take(end as int) =~= cs@);
    while end > 0 && cs[end - 1] == c
        invariant
            end <= cs@.len(),
            trim_end_char(cs@, c) == trim_end_char(cs@.take(end as int), c),
        decreases end,
    {
        assert(cs@.take(end as int).drop_last() =~= cs@.take(end - 1));
        end -= 1;
    }
    assert(cs@.take(end as int).len() == 0 || cs@.take(end as int).last() != c);
    cs.len() - end
}

/// The number of `c`s at the start of `cs`.
fn leading_count(cs: &Vec<char>, c: char) -> (n: usize)
    ensures
        n <= cs@.len(),
        trim_start_char(cs@, c) == cs@.skip(n as int),
{
    let mut start: usize = 0;
    assert(cs@.skip(0) =~= cs@);
    while start < cs.len() && cs[start] == c
        invariant
            start <= cs@.len(),
            trim_start_char(cs@, c) == trim_start_char(cs@.skip(start as int), c),
        decreases cs@.len() - start,
    {
        assert(cs@.skip(start as int).drop_first() =~= cs@.skip(start + 1));
        start += 1;
    }
    assert(cs@.skip(start as int).len() == 0 || cs@.skip(start as int)[0] != c);
    start
}

fn chars_range(cs: &Vec<char>, lo: usize, hi: usize) -> (s: String)
    requires
        lo <= hi <= cs@.len(),
    ensures
        s@ == cs@.subrange(lo as int, hi as int),
{
    let mut s = String::new();
    let mut i = lo;
    while i < hi
        invariant
            lo <= i <= hi <= cs@.len(),
            s@ == cs@.subrange(lo as int, i as int),
        decreases hi - i,
    {
        push_char(&mut s, cs[i]);
        i += 1;
        assert(cs@.subrange(lo as int, i as int) =~= cs@.subrange(lo as int, i - 1).push(cs@[i - 1]));
    }
    s
}

/// Combines two path segments, handling slashes correctly.
pub fn combine_paths(prefix: &str, path: &str) -> (s: String)
    ensures
        s@ == combined_path(prefix@, path@),
{
    let p = chars_of(prefix);
    let q = chars_of(path);
    if p.len() == 0 && q.len() == 0 {
        let slash: Vec<char> = vec!['/'];
        assert(slash@ =~= seq!['/']);
        string_from_chars(slash.as_slice())
    } else if p.len() == 0 {
        if q[0] == '/' {
            string_from_chars(q.as_slice())
        } else {
            let mut s = String::new();
            push_char(&mut s, '/');
            let tail = string_from_chars(q.as_slice());
            crate::text::push_str(&mut s, tail.as_str());
            assert(s@ =~= seq!['/'] + path@);
            s
        }
    } else if q.len() == 0 {
        string_from_chars(p.as_slice())
    } else {
        let trailing = trailing_count(&p, '/');
        let leading = leading_count(&q, '/');
        let mut s = chars_range(&p, 0, p.len() - trailing);
        assert(s@ =~= trim_end_char(prefix@, '/'));
        if leading == q.len() {
            assert(trim_start_char(path@, '/') =~= Seq::<char>::empty());
            s
        } else {
            push_char(&mut s, '/');
            let rest = chars_range(&q, leading, q.len());
            crate::text::push_str(&mut s, rest.as_str());
            assert(rest@ =~= trim_start_char(path@, '/'));
            s
        }
    }
}

// ---------------------------------------------------------------------------
// Response maps
// ---------------------------------------------------------------------------

fn keys_of<V>(m: &HashMap<u16, V>) -> (keys: Vec<u16>)
    ensures
        keys@.to_set() == m@.dom(),
        keys@.no_duplicates(),
{
    let mut keys: Vec<u16> = Vec::new();
    let ghost ks = vstd::std_specs::hash::spec_keys_iter(m).remaining();
    proof {
        vstd::std_specs::hash::axiom_spec_keys_iter(m);
    }
    for k in it: m.keys()
        invariant
            it.seq() == ks,
            keys@ == it.seq().take(it.index()).unref(),
    {
        keys.push(*k);
        proof {
            assert(it.seq().take(it.index() + 1).unref() =~= it.seq().take(it.index()).unref().push(*k));
        }
    }
    assert(keys@ =~= ks.unref());
    keys
}

proof fn lemma_take_contains(s: Seq<u16>, i: int)
    requires
        0 <= i < s.len(),
    ensures
        forall|x: u16| #[trigger] s.take(i + 1).contains(x) <==> (s.take(i).contains(x) || x == s[i]),
{
    assert forall|x: u16| #[trigger] s.take(i + 1).contains(x) <==> (s.take(i).contains(x) || x == s[i]) by {
        if x == s[i] {
            assert(s.take(i + 1)[i] == x);
        }
        if s.take(i).contains(x) {
            let j = choose|j: int| 0 <= j < i && s.take(i)[j] == x;
            assert(s.take(i + 1)[j] == x);
        }
        let t = s.take(i + 1);
        if t.contains(x) {
            let j = choose|j: int| 0 <= j < t.len() && t[j] == x;
            if j < i {
                assert(s.take(i)[j] == x);
            }
        }
    }
}

/// Adds the entries of `src` whose codes `dst` does not have yet.
fn insert_missing<V>(dst: &mut HashMap<u16, V>, src: HashMap<u16, V>)
    ensures
        final(dst)@ == src@.union_prefer_right(old(dst)@),
{
    let keys = keys_of(&src);
    let ghost src0 = src@;
    let ghost dst0 = dst@;
    let mut src = src;
    let mut i: usize = 0;
    proof {
        assert forall|x: u16| #[trigger] keys@.contains(x) <==> src0.contains_key(x) by {
            assert(keys@.to_set().contains(x) <==> keys@.contains(x));
        }
    }
    while i < keys.len()
        invariant
            i <= keys@.len(),
            keys@.no_duplicates(),
            forall|x: u16| #[trigger] keys@.contains(x) <==> src0.contains_key(x),
            forall|x: u16| #[trigger] src@.contains_key(x) <==> (src0.contains_key(x) && !keys@.take(i as int).contains(x)),
            forall|x: u16| #[trigger] src@.contains_key(x) ==> src@[x] == src0[x],
            forall|x: u16| #[trigger] dst@.contains_key(x) <==> (dst0.contains_key(x) || keys@.take(i as int).contains(x)),
            forall|x: u16| #[trigger] dst@.contains_key(x) ==> dst@[x] == if dst0.contains_key(x) {
                dst0[x]
            } else {
                src0[x]
            },
        decreases keys@.len() - i,
    {
        let k = keys[i];
        proof {
            assert(keys@.contains(k));
            assert(!keys@.take(i as int).contains(k)) by {
                if keys@.take(i as int).contains(k) {
                    let j = choose|j: int| 0 <= j < i && keys@.take(i as int)[j] == k;
                    assert(keys@[j] == keys@[i as int]);
                }
            }
            lemma_take_contains(keys@, i as int);
        }
        let removed = src.remove(&k);
        match removed {
            Some(v) => {
                if !dst.contains_key(&k) {
                    dst.insert(k, v);
                }
            },
            None => {},
        }
        i += 1;
    }
    proof {
        assert(keys@.take(keys@.len() as int) =~= keys@);
        assert(dst@ =~= src0.union_prefer_right(dst0));
    }
}

/// Adds every entry of `src`, replacing those `dst` had for the same code.
fn insert_all<V>(dst: &mut HashMap<u16, V>, src: HashMap<u16, V>)
    ensures
        final(dst)@ == old(dst)@.union_prefer_right(src@),
{
    let keys = keys_of(&src);
    let ghost src0 = src@;
    let ghost dst0 = dst@;
    let mut src = src;
    let mut i: usize = 0;
    proof {
        assert forall|x: u16| #[trigger] keys@.contains(x) <==> src0.contains_key(x) by {
            assert(keys@.to_set().contains(x) <==> keys@.contains(x));
        }
    }
    while i < keys.len()
        invariant
            i <= keys@.len(),
            keys@.no_duplicates(),
            forall|x: u16| #[trigger] keys@.contains(x) <==> src0.contains_key(x),
            forall|x: u16| #[trigger] src@.contains_key(x) <==> (src0.contains_key(x) && !keys@.take(i as int).contains(x)),
            forall|x: u16| #[trigger] src@.contains_key(x) ==> src@[x] == src0[x],
            forall|x: u16| #[trigger] dst@.contains_key(x) <==> (dst0.contains_key(x) || keys@.take(i as int).contains(x)),
            forall|x: u16| #[trigger] dst@.contains_key(x) ==> dst@[x] == if keys@.take(i as int).contains(x) {
                src0[x]
            } else {
                dst0[x]
            },
        decreases keys@.len() - i,
    {
        let k = keys[i];
        proof {
            assert(keys@.contains(k));
            assert(!keys@.take(i as int).contains(k)) by {
                if keys@.take(i as int).contains(k) {
                    let j = choose|j: int| 0 <= j < i && keys@.take(i as int)[j] == k;
                    assert(keys@[j] == keys@[i as int]);
                }
            }
            lemma_take_contains(keys@, i as int);
        }
        let removed = src.remove(&k);
        match removed {
            Some(v) => {
                dst.insert(k, v);
            },
            None => {},
        }
        i += 1;
    }
    proof {
        assert(keys@.take(keys@.len() as int) =~= keys@);
        assert(dst@ =~= dst0.union_prefer_right(src0));
    }
}


// ---------------------------------------------------------------------------
// Response definitions and dependencies
// ---------------------------------------------------------------------------

#[verifier::external_type_specification]
#[verifier::external_body]
pub struct ExJsonValue(serde_json::Value);

/// Response definition for OpenAPI documentation.
#[derive(Debug, Clone)]
pub struct ResponseDef {
    /// HTTP status code description.
    pub description: String,
    /// Optional example response body.
    pub example: Option<serde_json::Value>,
    /// Content type for this response.
    pub content_type: Option<String>,
}

impl ResponseDef {
    /// Create a new response definition with a description.
    pub fn new(description: &str) -> (r: Self)
        ensures
            r.description@ == description@,
            r.example is None,
            r.content_type is None,
    {
        ResponseDef { description: String::from_str(description), example: None, content_type: None }
    }

    /// Set an example response body.
    pub fn with_example(self, example: serde_json::Value) -> (r: Self)
        ensures
            r.description == self.description,
            r.example == Some(example),
            r.content_type == self.content_type,
    {
        ResponseDef { example: Some(example), ..self }
    }

    /// Set the content type.
    pub fn with_content_type(self, content_type: &str) -> (r: Self)
        ensures
            r.description == self.description,
            r.example == self.example,
            r.content_type matches Some(c) && c@ == content_type@,
    {
        ResponseDef { content_type: Some(String::from_str(content_type)), ..self }
    }
}

/// A dependency that runs before a handler: its name and the index of its
/// function in the application's table.
#[derive(Debug, Clone)]
pub struct RouterDependency {
    /// Name, for debugging and documentation.
    pub name: String,
    /// Index of the dependency function.
    pub handler: usize,
}

pub open spec fn dep_view(d: RouterDependency) -> (Seq<char>, usize) {
    (d.name@, d.handler)
}

pub open spec fn deps_view(ds: Seq<RouterDependency>) -> Seq<(Seq<char>, usize)> {
    ds.map_values(|d: RouterDependency| dep_view(d))
}

impl RouterDependency {
    /// A named dependency running the function at index `handler`.
    pub fn new(name: &str, handler: usize) -> (d: Self)
        ensures
            dep_view(d) == (name@, handler),
    {
        RouterDependency { name: String::from_str(name), handler }
    }

    fn duplicate(&self) -> (d: Self)
        ensures
            dep_view(d) == dep_view(*self),
    {
        RouterDependency { name: self.name.clone(), handler: self.handler }
    }
}

/// Appends copies of `ds`.
fn append_deps(out: &mut Vec<RouterDependency>, ds: &Vec<RouterDependency>)
    ensures
        deps_view(final(out)@) == deps_view(old(out)@) + deps_view(ds@),
{
    let ghost start = out@;
    let mut i: usize = 0;
    while i < ds.len()
        invariant
            i <= ds@.len(),
            deps_view(out@) == deps_view(start) + deps_view(ds@.take(i as int)),
        decreases ds@.len() - i,
    {
        let ghost prev = out@;
        let d = ds[i].duplicate();
        out.push(d);
        assert(deps_view(out@) =~= deps_view(prev).push(dep_view(d)));
        i += 1;
        proof {
            assert(deps_view(ds@.take(i as int)) =~= deps_view(ds@.take(i - 1)).push(dep_view(ds@[i - 1])));
            assert(deps_view(out@) =~= deps_view(start) + deps_view(ds@.take(i as int)));
        }
    }
    assert(ds@.take(ds@.len() as int) =~= ds@);
}

/// Appends copies of `ss`.
fn append_strings(out: &mut Vec<String>, ss: &Vec<String>)
    ensures
        strings_view(final(out)@) == strings_view(old(out)@) + strings_view(ss@),
{
    let ghost start = out@;
    let mut i: usize = 0;
    while i < ss.len()
        invariant
            i <= ss@.len(),
            strings_view(out@) == strings_view(start) + strings_view(ss@.take(i as int)),
        decreases ss@.len() - i,
    {
        let ghost prev = out@;
        let c = ss[i].clone();
        out.push(c);
        assert(strings_view(out@) =~= strings_view(prev).push(c@));
        i += 1;
        proof {
            assert(strings_view(ss@.take(i as int)) =~= strings_view(ss@.take(i - 1)).push(ss@[i - 1]@));
            assert(strings_view(out@) =~= strings_view(start) + strings_view(ss@.take(i as int)));
        }
    }
    assert(ss@.take(ss@.len() as int) =~= ss@);
}

fn owned_strings(tags: Vec<&str>) -> (r: Vec<String>)
    ensures
        strings_view(r@) == tags@.map_values(|t: &str| t@),
{
    let mut out: Vec<String> = Vec::new();
    let mut i: usize = 0;
    while i < tags.len()
        invariant
            i <= tags@.len(),
            strings_view(out@) == tags@.take(i as int).map_values(|t: &str| t@),
        decreases tags@.len() - i,
    {
        out.push(String::from_str(tags[i]));
        i += 1;
        proof {
            assert(tags@.take(i as int).map_values(|t: &str| t@) =~= tags@.take(i - 1).map_values(|t: &str| t@).push(
                tags@[i - 1]@,
            ));
            assert(strings_view(out@) =~= tags@.take(i as int).map_values(|t: &str| t@));
        }
    }
    assert(tags@.take(tags@.len() as int) =~= tags@);
    out
}

// ---------------------------------------------------------------------------
// Prefixes
// ---------------------------------------------------------------------------

/// `p` with a leading slash added when it has none (and is not empty).
pub open spec fn slash_led(p: Seq<char>) -> Seq<char> {
    if p.len() > 0 && p[0] != '/' {
        seq!['/'] + p
    } else {
        p
    }
}

/// A router prefix: led by a slash, and without one trailing slash unless it
/// is just "/".
pub open spec fn router_prefix(p: Seq<char>) -> Seq<char> {
    let q = slash_led(p);
    if q.len() > 1 && q.last() == '/' {
        q.drop_last()
    } else {
        q
    }
}

/// A prefix given when a router is added to another: led by a slash, and without its trailing slashes unless
/// it is just "/".
pub open spec fn config_prefix(p: Seq<char>) -> Seq<char> {
    let q = slash_led(p);
    if q.len() > 1 && q.last() == '/' {
        trim_end_char(q, '/')
    } else {
        q
    }
}

fn slash_led_chars(p: &str) -> (cs: Vec<char>)
    ensures
        cs@ == slash_led(p@),
{
    let q = chars_of(p);
    if q.len() > 0 && q[0] != '/' {
        let mut cs: Vec<char> = vec!['/'];
        let mut i: usize = 0;
        while i < q.len()
            invariant
                i <= q@.len(),
                cs@ == seq!['/'] + q@.take(i as int),
            decreases q@.len() - i,
        {
            cs.push(q[i]);
            i += 1;
            assert(seq!['/'] + q@.take(i as int) =~= (seq!['/'] + q@.take(i - 1)).push(q@[i - 1]));
        }
        assert(q@.take(q@.len() as int) =~= q@);
        cs
    } else {
        q
    }
}

fn normalize_router_prefix(p: &str) -> (s: String)
    ensures
        s@ == router_prefix(p@),
{
    let mut cs = slash_led_chars(p);
    if cs.len() > 1 && cs[cs.len() - 1] == '/' {
        cs.pop();
        assert(cs@ =~= slash_led(p@).drop_last());
    }
    string_from_chars(cs.as_slice())
}

fn normalize_config_prefix(p: &str) -> (s: String)
    ensures
        s@ == config_prefix(p@),
{
    let cs = slash_led_chars(p);
    if cs.len() > 1 && cs[cs.len() - 1] == '/' {
        let n = trailing_count(&cs, '/');
        chars_range(&cs, 0, cs.len() - n)
    } else {
        string_from_chars(cs.as_slice())
    }
}


// ---------------------------------------------------------------------------
// Include configuration
// ---------------------------------------------------------------------------

/// Configuration for including a router into another.
#[derive(Debug)]
pub struct IncludeConfig {
    prefix: Option<String>,
    tags: Vec<String>,
    dependencies: Vec<RouterDependency>,
    responses: HashMap<u16, ResponseDef>,
    deprecated: Option<bool>,
    include_in_schema: Option<bool>,
}

pub struct IncludeConfigView {
    pub prefix: Option<Seq<char>>,
    pub tags: Seq<Seq<char>>,
    pub dependencies: Seq<(Seq<char>, usize)>,
    pub responses: Map<u16, ResponseDef>,
    pub deprecated: Option<bool>,
    pub include_in_schema: Option<bool>,
}

pub open spec fn opt_string(o: Option<String>) -> Option<Seq<char>> {
    match o {
        Some(s) => Some(s@),
        None => None,
    }
}

impl View for IncludeConfig {
    type V = IncludeConfigView;

    closed spec fn view(&self) -> IncludeConfigView {
        IncludeConfigView {
            prefix: opt_string(self.prefix),
            tags: strings_view(self.tags@),
            dependencies: deps_view(self.dependencies@),
            responses: self.responses@,
            deprecated: self.deprecated,
            include_in_schema: self.include_in_schema,
        }
    }
}

/// The configuration that changes nothing.
pub open spec fn empty_config() -> IncludeConfigView {
    IncludeConfigView {
        prefix: None,
        tags: Seq::empty(),
        dependencies: Seq::empty(),
        responses: Map::empty(),
        deprecated: None,
        include_in_schema: None,
    }
}

impl Default for IncludeConfig {
    fn default() -> (c: Self)
        ensures
            c@ == empty_config(),
    {
        let c = IncludeConfig {
            prefix: None,
            tags: Vec::new(),
            dependencies: Vec::new(),
            responses: HashMap::new(),
            deprecated: None,
            include_in_schema: None,
        };
        assert(c@.tags =~= Seq::<Seq<char>>::empty());
        assert(c@.dependencies =~= Seq::<(Seq<char>, usize)>::empty());
        c
    }
}

impl IncludeConfig {
    /// A configuration that changes nothing.
    pub fn new() -> (c: Self)
        ensures
            c@ == empty_config(),
    {
        Self::default()
    }

    /// Prefix prepended to the router's prefix: led by a slash, trailing
    /// slashes dropped. An empty prefix changes nothing.
    pub fn prefix(self, prefix: &str) -> (c: Self)
        ensures
            c@ == (if prefix@.len() == 0 {
                self@
            } else {
                IncludeConfigView { prefix: Some(config_prefix(prefix@)), ..self@ }
            }),
    {
        let cs = chars_of(prefix);
        if cs.len() == 0 {
            self
        } else {
            IncludeConfig { prefix: Some(normalize_config_prefix(prefix)), ..self }
        }
    }

    /// Replaces the tags.
    pub fn tags(self, tags: Vec<&str>) -> (c: Self)
        ensures
            c@ == (IncludeConfigView { tags: tags@.map_values(|t: &str| t@), ..self@ }),
    {
        IncludeConfig { tags: owned_strings(tags), ..self }
    }

    /// Adds a tag.
    pub fn tag(self, tag: &str) -> (c: Self)
        ensures
            c@ == (IncludeConfigView { tags: self@.tags.push(tag@), ..self@ }),
    {
        let mut this = self;
        let ghost prev = this.tags@;
        this.tags.push(String::from_str(tag));
        assert(strings_view(this.tags@) =~= strings_view(prev).push(tag@));
        this
    }

    /// Adds a dependency.
    pub fn dependency(self, dep: RouterDependency) -> (c: Self)
        ensures
            c@ == (IncludeConfigView { dependencies: self@.dependencies.push(dep_view(dep)), ..self@ }),
    {
        let mut this = self;
        let ghost prev = this.dependencies@;
        this.dependencies.push(dep);
        assert(deps_view(this.dependencies@) =~= deps_view(prev).push(dep_view(dep)));
        this
    }

    /// Replaces the dependencies.
    pub fn dependencies(self, deps: Vec<RouterDependency>) -> (c: Self)
        ensures
            c@ == (IncludeConfigView { dependencies: deps_view(deps@), ..self@ }),
    {
        IncludeConfig { dependencies: deps, ..self }
    }

    /// Adds (or replaces) the response definition of a status code.
    pub fn response(self, status_code: u16, def: ResponseDef) -> (c: Self)
        ensures
            c@ == (IncludeConfigView { responses: self@.responses.insert(status_code, def), ..self@ }),
    {
        let mut this = self;
        this.responses.insert(status_code, def);
        this
    }

    /// Replaces the response definitions.
    pub fn responses(self, responses: HashMap<u16, ResponseDef>) -> (c: Self)
        ensures
            c@ == (IncludeConfigView { responses: responses@, ..self@ }),
    {
        IncludeConfig { responses, ..self }
    }

    /// Deprecation applied to the included routes that do not set their own.
    pub fn deprecated(self, deprecated: bool) -> (c: Self)
        ensures
            c@ == (IncludeConfigView { deprecated: Some(deprecated), ..self@ }),
    {
        IncludeConfig { deprecated: Some(deprecated), ..self }
    }

    /// Overrides whether the included routes appear in the schema.
    pub fn include_in_schema(self, included: bool) -> (c: Self)
        ensures
            c@ == (IncludeConfigView { include_in_schema: Some(included), ..self@ }),
    {
        IncludeConfig { include_in_schema: Some(included), ..self }
    }

    pub fn get_prefix(&self) -> (p: Option<&str>)
        ensures
            match p {
                Some(s) => self@.prefix == Some(s@),
                None => self@.prefix is None,
            },
    {
        match &self.prefix {
            Some(s) => Some(s.as_str()),
            None => None,
        }
    }

    pub fn get_tags(&self) -> (t: &[String])
        ensures
            strings_view(t@) == self@.tags,
    {
        self.tags.as_slice()
    }

    pub fn get_dependencies(&self) -> (d: &[RouterDependency])
        ensures
            deps_view(d@) == self@.dependencies,
    {
        self.dependencies.as_slice()
    }

    pub fn get_responses(&self) -> (r: &HashMap<u16, ResponseDef>)
        ensures
            r@ == self@.responses,
    {
        &self.responses
    }

    pub fn get_deprecated(&self) -> (d: Option<bool>)
        ensures
            d == self@.deprecated,
    {
        self.deprecated
    }

    pub fn get_include_in_schema(&self) -> (i: Option<bool>)
        ensures
            i == self@.include_in_schema,
    {
        self.include_in_schema
    }
}


// ---------------------------------------------------------------------------
// Routers
// ---------------------------------------------------------------------------

/// A route of a router.
#[derive(Debug)]
pub struct RouterRoute {
    /// HTTP method.
    pub method: Method,
    /// Path pattern.
    pub path: String,
    /// Index of the handler in the application's table.
    pub handler: usize,
    /// Tags for this route.
    pub tags: Vec<String>,
    /// Dependencies of this route.
    pub dependencies: Vec<RouterDependency>,
    /// Whether this route is deprecated.
    pub deprecated: Option<bool>,
    /// Whether to include in the OpenAPI schema.
    pub include_in_schema: bool,
}

pub struct RouteView {
    pub method: Method,
    pub path: Seq<char>,
    pub handler: usize,
    pub tags: Seq<Seq<char>>,
    pub dependencies: Seq<(Seq<char>, usize)>,
    pub deprecated: Option<bool>,
    pub include_in_schema: bool,
}

pub open spec fn route_view(r: RouterRoute) -> RouteView {
    RouteView {
        method: r.method,
        path: r.path@,
        handler: r.handler,
        tags: strings_view(r.tags@),
        dependencies: deps_view(r.dependencies@),
        deprecated: r.deprecated,
        include_in_schema: r.include_in_schema,
    }
}

pub open spec fn routes_view(rs: Seq<RouterRoute>) -> Seq<RouteView> {
    rs.map_values(|r: RouterRoute| route_view(r))
}

/// A router grouping routes under a shared prefix, tags, dependencies and
/// response definitions.
#[derive(Debug)]
pub struct APIRouter {
    prefix: String,
    tags: Vec<String>,
    dependencies: Vec<RouterDependency>,
    responses: HashMap<u16, ResponseDef>,
    deprecated: Option<bool>,
    include_in_schema: bool,
    routes: Vec<RouterRoute>,
}

pub struct APIRouterView {
    pub prefix: Seq<char>,
    pub tags: Seq<Seq<char>>,
    pub dependencies: Seq<(Seq<char>, usize)>,
    pub responses: Map<u16, ResponseDef>,
    pub deprecated: Option<bool>,
    pub include_in_schema: bool,
    pub routes: Seq<RouteView>,
}

impl View for APIRouter {
    type V = APIRouterView;

    closed spec fn view(&self) -> APIRouterView {
        APIRouterView {
            prefix: self.prefix@,
            tags: strings_view(self.tags@),
            dependencies: deps_view(self.dependencies@),
            responses: self.responses@,
            deprecated: self.deprecated,
            include_in_schema: self.include_in_schema,
            routes: routes_view(self.routes@),
        }
    }
}

/// A router with nothing in it, in the schema or not.
pub open spec fn empty_router(include_in_schema: bool) -> APIRouterView {
    APIRouterView {
        prefix: Seq::empty(),
        tags: Seq::empty(),
        dependencies: Seq::empty(),
        responses: Map::empty(),
        deprecated: None,
        include_in_schema,
        routes: Seq::empty(),
    }
}

/// The deprecation given to included routes that set none: the
/// configuration's, else the included router's.
pub open spec fn effective_deprecated(config: IncludeConfigView, other: APIRouterView) -> Option<bool> {
    match config.deprecated {
        Some(d) => Some(d),
        None => other.deprecated,
    }
}

/// Whether included routes may stay in the schema: the configuration's
/// setting, else the included router's.
pub open spec fn effective_include(config: IncludeConfigView, other: APIRouterView) -> bool {
    match config.include_in_schema {
        Some(b) => b,
        None => other.include_in_schema,
    }
}

/// The prefix of the included routes: the configuration's prefix joined with
/// the included router's.
pub open spec fn full_prefix(config: IncludeConfigView, other: APIRouterView) -> Seq<char> {
    match config.prefix {
        Some(cp) => combined_path(cp, other.prefix),
        None => other.prefix,
    }
}

/// An included route: path under the full prefix; tags and dependencies of
/// the configuration, then of the router, then its own; its own deprecation
/// if it has one; kept out of the schema when it or the inclusion says so.
pub open spec fn merged_route(r: RouteView, other: APIRouterView, config: IncludeConfigView) -> RouteView {
    RouteView {
        method: r.method,
        path: combined_path(full_prefix(config, other), r.path),
        handler: r.handler,
        tags: config.tags + other.tags + r.tags,
        dependencies: config.dependencies + other.dependencies + r.dependencies,
        deprecated: if r.deprecated is None {
            effective_deprecated(config, other)
        } else {
            r.deprecated
        },
        include_in_schema: r.include_in_schema && effective_include(config, other),
    }
}

/// `this` after including `other` with `config`: the merged routes appended;
/// response definitions of the included router over those of `this` over
/// those of the configuration; everything else of `this` unchanged.
pub open spec fn merged_router(this: APIRouterView, other: APIRouterView, config: IncludeConfigView) -> APIRouterView {
    APIRouterView {
        routes: this.routes + other.routes.map_values(|r: RouteView| merged_route(r, other, config)),
        responses: config.responses.union_prefer_right(this.responses).union_prefer_right(other.responses),
        ..this
    }
}

/// Including a router keeps the routes already there and adds one route per
/// included route, in order, with the same method and handler, running the
/// configuration's dependencies first, then the included router's, then
/// the route's own, and carrying the tags in the same order.
pub proof fn lemma_include_dependency_order(this: APIRouterView, other: APIRouterView, config: IncludeConfigView)
    ensures
        ({
            let rs = merged_router(this, other, config).routes;
            let c = config.dependencies.len() as int;
            let o = other.dependencies.len() as int;
            &&& rs.len() == this.routes.len() + other.routes.len()
            &&& rs.take(this.routes.len() as int) == this.routes
            &&& forall|i: int| 0 <= i < other.routes.len() ==> {
                let d = #[trigger] rs[this.routes.len() + i].dependencies;
                &&& d.take(c) == config.dependencies
                &&& d.subrange(c, c + o) == other.dependencies
                &&& d.skip(c + o) == other.routes[i].dependencies
                &&& rs[this.routes.len() + i].tags == config.tags + other.tags + other.routes[i].tags
                &&& rs[this.routes.len() + i].method == other.routes[i].method
                &&& rs[this.routes.len() + i].handler == other.routes[i].handler
            }
        }),
{
    let rs = merged_router(this, other, config).routes;
    let c = config.dependencies.len() as int;
    let o = other.dependencies.len() as int;
    assert(rs.take(this.routes.len() as int) =~= this.routes);
    assert forall|i: int| 0 <= i < other.routes.len() implies {
        let d = #[trigger] rs[this.routes.len() + i].dependencies;
        &&& d.take(c) == config.dependencies
        &&& d.subrange(c, c + o) == other.dependencies
        &&& d.skip(c + o) == other.routes[i].dependencies
        &&& rs[this.routes.len() + i].tags == config.tags + other.tags + other.routes[i].tags
        &&& rs[this.routes.len() + i].method == other.routes[i].method
        &&& rs[this.routes.len() + i].handler == other.routes[i].handler
    } by {
        let r = other.routes[i];
        assert(rs[this.routes.len() + i] == merged_route(r, other, config));
        let d = config.dependencies + other.dependencies + r.dependencies;
        assert(d.take(c) =~= config.dependencies);
        assert(d.subrange(c, c + o) =~= other.dependencies);
        assert(d.skip(c + o) =~= r.dependencies);
    }
}

/// A route ready to be served: run the dependencies in order, then the
/// handler.
#[derive(Debug)]
pub struct RouteEntry {
    pub method: Method,
    pub path: String,
    pub handler: usize,
    pub dependencies: Vec<RouterDependency>,
    /// Whether the route appears in the OpenAPI schema (it is served
    /// either way).
    pub include_in_schema: bool,
}

pub struct EntryView {
    pub method: Method,
    pub path: Seq<char>,
    pub handler: usize,
    pub dependencies: Seq<(Seq<char>, usize)>,
    pub include_in_schema: bool,
}

pub open spec fn entry_view(e: RouteEntry) -> EntryView {
    EntryView {
        method: e.method,
        path: e.path@,
        handler: e.handler,
        dependencies: deps_view(e.dependencies@),
        include_in_schema: e.include_in_schema,
    }
}

/// The entry of a route: under the prefix, with the router's dependencies
/// before its own, in the schema when both the router and the route are.
pub open spec fn route_entry(
    r: RouteView,
    prefix: Seq<char>,
    deps: Seq<(Seq<char>, usize)>,
    router_included: bool,
) -> EntryView {
    EntryView {
        method: r.method,
        path: combined_path(prefix, r.path),
        handler: r.handler,
        dependencies: deps + r.dependencies,
        include_in_schema: router_included && r.include_in_schema,
    }
}

/// The entries of all the routes, in order.
pub open spec fn route_entries(
    routes: Seq<RouteView>,
    prefix: Seq<char>,
    deps: Seq<(Seq<char>, usize)>,
    router_included: bool,
) -> Seq<EntryView> {
    routes.map_values(|r: RouteView| route_entry(r, prefix, deps, router_included))
}

impl Default for APIRouter {
    /// An empty router, out of the schema.
    fn default() -> (r: Self)
        ensures
            r@ == empty_router(false),
    {
        let r = APIRouter {
            prefix: String::new(),
            tags: Vec::new(),
            dependencies: Vec::new(),
            responses: HashMap::new(),
            deprecated: None,
            include_in_schema: false,
            routes: Vec::new(),
        };
        assert(r@.tags =~= Seq::<Seq<char>>::empty());
        assert(r@.dependencies =~= Seq::<(Seq<char>, usize)>::empty());
        assert(r@.routes =~= Seq::<RouteView>::empty());
        r
    }
}

impl APIRouter {
    /// An empty router, in the schema.
    pub fn new() -> (r: Self)
        ensures
            r@ == empty_router(true),
    {
        let r = APIRouter {
            prefix: String::new(),
            tags: Vec::new(),
            dependencies: Vec::new(),
            responses: HashMap::new(),
            deprecated: None,
            include_in_schema: true,
            routes: Vec::new(),
        };
        assert(r@.tags =~= Seq::<Seq<char>>::empty());
        assert(r@.dependencies =~= Seq::<(Seq<char>, usize)>::empty());
        assert(r@.routes =~= Seq::<RouteView>::empty());
        r
    }

    /// An empty router with a prefix.
    pub fn with_prefix(prefix: &str) -> (r: Self)
        ensures
            r@ == (APIRouterView { prefix: router_prefix(prefix@), ..empty_router(true) }),
    {
        Self::new().prefix(prefix)
    }

    /// Sets the prefix: led by a slash unless empty, one trailing slash
    /// dropped unless it is just "/".
    pub fn prefix(self, prefix: &str) -> (r: Self)
        ensures
            r@ == (APIRouterView { prefix: router_prefix(prefix@), ..self@ }),
    {
        APIRouter { prefix: normalize_router_prefix(prefix), ..self }
    }

    /// Replaces the tags.
    pub fn tags(self, tags: Vec<&str>) -> (r: Self)
        ensures
            r@ == (APIRouterView { tags: tags@.map_values(|t: &str| t@), ..self@ }),
    {
        APIRouter { tags: owned_strings(tags), ..self }
    }

    /// Adds a tag.
    pub fn tag(self, tag: &str) -> (r: Self)
        ensures
            r@ == (APIRouterView { tags: self@.tags.push(tag@), ..self@ }),
    {
        let mut this = self;
        let ghost prev = this.tags@;
        this.tags.push(String::from_str(tag));
        assert(strings_view(this.tags@) =~= strings_view(prev).push(tag@));
        this
    }

    /// Adds a dependency.
    pub fn dependency(self, dep: RouterDependency) -> (r: Self)
        ensures
            r@ == (APIRouterView { dependencies: self@.dependencies.push(dep_view(dep)), ..self@ }),
    {
        let mut this = self;
        let ghost prev = this.dependencies@;
        this.dependencies.push(dep);
        assert(deps_view(this.dependencies@) =~= deps_view(prev).push(dep_view(dep)));
        this
    }

    /// Adds dependencies after those already there.
    pub fn dependencies(self, deps: Vec<RouterDependency>) -> (r: Self)
        ensures
            r@ == (APIRouterView { dependencies: self@.dependencies + deps_view(deps@), ..self@ }),
    {
        let mut this = self;
        append_deps(&mut this.dependencies, &deps);
        this
    }

    /// Adds (or replaces) the response definition of a status code.
    pub fn response(self, status_code: u16, def: ResponseDef) -> (r: Self)
        ensures
            r@ == (APIRouterView { responses: self@.responses.insert(status_code, def), ..self@ }),
    {
        let mut this = self;
        this.responses.insert(status_code, def);
        this
    }

    /// Replaces the response definitions.
    pub fn responses(self, responses: HashMap<u16, ResponseDef>) -> (r: Self)
        ensures
            r@ == (APIRouterView { responses: responses@, ..self@ }),
    {
        APIRouter { responses, ..self }
    }

    /// Marks the router deprecated (or not).
    pub fn deprecated(self, deprecated: bool) -> (r: Self)
        ensures
            r@ == (APIRouterView { deprecated: Some(deprecated), ..self@ }),
    {
        APIRouter { deprecated: Some(deprecated), ..self }
    }

    /// Sets whether the router's routes appear in the schema.
    pub fn include_in_schema(self, included: bool) -> (r: Self)
        ensures
            r@ == (APIRouterView { include_in_schema: included, ..self@ }),
    {
        APIRouter { include_in_schema: included, ..self }
    }

    /// Adds a route for `method` at `path` served by the handler at index
    /// `handler`.
    pub fn route(self, path: &str, method: Method, handler: usize) -> (r: Self)
        ensures
            r@ == (APIRouterView {
                routes: self@.routes.push(
                    RouteView {
                        method,
                        path: path@,
                        handler,
                        tags: Seq::empty(),
                        dependencies: Seq::empty(),
                        deprecated: None,
                        include_in_schema: true,
                    },
                ),
                ..self@
            }),
    {
        let mut this = self;
        let ghost prev = this.routes@;
        let route = RouterRoute {
            method,
            path: String::from_str(path),
            handler,
            tags: Vec::new(),
            dependencies: Vec::new(),
            deprecated: None,
            include_in_schema: true,
        };
        this.routes.push(route);
        proof {
            assert(route_view(route).tags =~= Seq::<Seq<char>>::empty());
            assert(route_view(route).dependencies =~= Seq::<(Seq<char>, usize)>::empty());
            assert(routes_view(this.routes@) =~= routes_view(prev).push(route_view(route)));
        }
        this
    }

    /// Adds a GET route.
    pub fn get(self, path: &str, handler: usize) -> (r: Self)
        ensures
            r@ == self.route_added(path@, Method::Get, handler),
    {
        self.route(path, Method::Get, handler)
    }

    /// Adds a POST route.
    pub fn post(self, path: &str, handler: usize) -> (r: Self)
        ensures
            r@ == self.route_added(path@, Method::Post, handler),
    {
        self.route(path, Method::Post, handler)
    }

    /// Adds a PUT route.
    pub fn put(self, path: &str, handler: usize) -> (r: Self)
        ensures
            r@ == self.route_added(path@, Method::Put, handler),
    {
        self.route(path, Method::Put, handler)
    }

    /// Adds a DELETE route.
    pub fn delete(self, path: &str, handler: usize) -> (r: Self)
        ensures
            r@ == self.route_added(path@, Method::Delete, handler),
    {
        self.route(path, Method::Delete, handler)
    }

    /// Adds a PATCH route.
    pub fn patch(self, path: &str, handler: usize) -> (r: Self)
        ensures
            r@ == self.route_added(path@, Method::Patch, handler),
    {
        self.route(path, Method::Patch, handler)
    }

    /// Adds an OPTIONS route.
    pub fn options(self, path: &str, handler: usize) -> (r: Self)
        ensures
            r@ == self.route_added(path@, Method::Options, handler),
    {
        self.route(path, Method::Options, handler)
    }

    /// Adds a HEAD route.
    pub fn head(self, path: &str, handler: usize) -> (r: Self)
        ensures
            r@ == self.route_added(path@, Method::Head, handler),
    {
        self.route(path, Method::Head, handler)
    }

    /// The router with a plain route added.
    pub open spec fn route_added(self, path: Seq<char>, method: Method, handler: usize) -> APIRouterView {
        APIRouterView {
            routes: self@.routes.push(
                RouteView {
                    method,
                    path,
                    handler,
                    tags: Seq::empty(),
                    dependencies: Seq::empty(),
                    deprecated: None,
                    include_in_schema: true,
                },
            ),
            ..self@
        }
    }

    pub fn get_prefix(&self) -> (p: &str)
        ensures
            p@ == self@.prefix,
    {
        self.prefix.as_str()
    }

    pub fn get_tags(&self) -> (t: &[String])
        ensures
            strings_view(t@) == self@.tags,
    {
        self.tags.as_slice()
    }

    pub fn get_dependencies(&self) -> (d: &[RouterDependency])
        ensures
            deps_view(d@) == self@.dependencies,
    {
        self.dependencies.as_slice()
    }

    pub fn get_responses(&self) -> (r: &HashMap<u16, ResponseDef>)
        ensures
            r@ == self@.responses,
    {
        &self.responses
    }

    pub fn is_deprecated(&self) -> (d: Option<bool>)
        ensures
            d == self@.deprecated,
    {
        self.deprecated
    }

    pub fn get_include_in_schema(&self) -> (i: bool)
        ensures
            i == self@.include_in_schema,
    {
        self.include_in_schema
    }

    pub fn get_routes(&self) -> (r: &[RouterRoute])
        ensures
            routes_view(r@) == self@.routes,
    {
        self.routes.as_slice()
    }
}


impl APIRouter {
    /// Includes another router's routes with no extra configuration.
    pub fn include_router(self, other: APIRouter) -> (r: Self)
        ensures
            r@ == merged_router(self@, other@, empty_config()),
    {
        self.include_router_with_config(other, IncludeConfig::default())
    }

    /// Includes another router's routes: each route's path goes under the
    /// configuration's prefix and the router's; its tags and dependencies are
    /// the configuration's, then the router's, then its own; a route without
    /// its own deprecation takes the configuration's, else the router's; the
    /// configuration's schema setting overrides the router's, and a route kept
    /// out of the schema stays out. Response definitions: the included
    /// router's win over this router's, which win over the configuration's.
    #[verifier::rlimit(40)]
    pub fn include_router_with_config(self, other: APIRouter, config: IncludeConfig) -> (r: Self)
        ensures
            r@ == merged_router(self@, other@, config@),
    {
        let ghost this0 = self@;
        let ghost other0 = other@;
        let ghost config0 = config@;
        let ghost added = other0.routes.map_values(|r: RouteView| merged_route(r, other0, config0));
        let mut this = self;
        let eff_deprecated = match config.deprecated {
            Some(d) => Some(d),
            None => other.deprecated,
        };
        let eff_include = match config.include_in_schema {
            Some(b) => b,
            None => other.include_in_schema,
        };
        let prefix = match &config.prefix {
            Some(cp) => combine_paths(cp.as_str(), other.prefix.as_str()),
            None => other.prefix.clone(),
        };
        assert(prefix@ == full_prefix(config0, other0));
        let mut i: usize = 0;
        while i < other.routes.len()
            invariant
                i <= other@.routes.len(),
                other@ == other0,
                config@ == config0,
                added == other0.routes.map_values(|r: RouteView| merged_route(r, other0, config0)),
                eff_deprecated == effective_deprecated(config0, other0),
                eff_include == effective_include(config0, other0),
                prefix@ == full_prefix(config0, other0),
                this@ == (APIRouterView { routes: this0.routes + added.take(i as int), ..this0 }),
            decreases other@.routes.len() - i,
        {
            let route = &other.routes[i];
            proof {
                assert(route_view(*route) == other0.routes[i as int]);
            }
            let path = combine_paths(prefix.as_str(), route.path.as_str());
            let mut tags: Vec<String> = Vec::new();
            append_strings(&mut tags, &config.tags);
            append_strings(&mut tags, &other.tags);
            append_strings(&mut tags, &route.tags);
            let mut deps: Vec<RouterDependency> = Vec::new();
            append_deps(&mut deps, &config.dependencies);
            append_deps(&mut deps, &other.dependencies);
            append_deps(&mut deps, &route.dependencies);
            let deprecated = match route.deprecated {
                None => eff_deprecated,
                Some(d) => Some(d),
            };
            let merged = RouterRoute {
                method: route.method,
                path,
                handler: route.handler,
                tags,
                dependencies: deps,
                deprecated,
                include_in_schema: route.include_in_schema && eff_include,
            };
            let ghost prev = this.routes@;
            this.routes.push(merged);
            proof {
                assert(strings_view(tags@) =~= config0.tags + other0.tags + strings_view(route.tags@));
                assert(deps_view(deps@) =~= config0.dependencies + other0.dependencies + deps_view(route.dependencies@));
                assert(route_view(merged) == added[i as int]);
                assert(routes_view(this.routes@) =~= routes_view(prev).push(route_view(merged)));
                assert(added.take(i + 1) =~= added.take(i as int).push(added[i as int]));
                assert(this0.routes + added.take(i + 1) =~= (this0.routes + added.take(i as int)).push(added[i as int]));
            }
            i += 1;
        }
        proof {
            assert(added.take(i as int) =~= added);
        }
        insert_missing(&mut this.responses, config.responses);
        insert_all(&mut this.responses, other.responses);
        this
    }

    /// The routes to serve: every route, under the router's prefix, with the
    /// router's dependencies before its own, marked for the schema when both
    /// the router and the route are in it.
    pub fn into_route_entries(self) -> (entries: Vec<RouteEntry>)
        ensures
            entries@.map_values(|e: RouteEntry| entry_view(e)) == route_entries(
                self@.routes,
                self@.prefix,
                self@.dependencies,
                self@.include_in_schema,
            ),
    {
        let ghost v = self@;
        let mut out: Vec<RouteEntry> = Vec::new();
        let mut i: usize = 0;
        while i < self.routes.len()
            invariant
                i <= v.routes.len(),
                v == self@,
                out@.map_values(|e: RouteEntry| entry_view(e)) == route_entries(
                    v.routes.take(i as int),
                    v.prefix,
                    v.dependencies,
                    v.include_in_schema,
                ),
            decreases v.routes.len() - i,
        {
            let route = &self.routes[i];
            proof {
                assert(route_view(*route) == v.routes[i as int]);
                assert(v.routes.take(i + 1).drop_last() =~= v.routes.take(i as int));
                assert(v.routes.take(i + 1).last() == v.routes[i as int]);
            }
            let mut deps: Vec<RouterDependency> = Vec::new();
            append_deps(&mut deps, &self.dependencies);
            append_deps(&mut deps, &route.dependencies);
            let entry = RouteEntry {
                method: route.method,
                path: combine_paths(self.prefix.as_str(), route.path.as_str()),
                handler: route.handler,
                dependencies: deps,
                include_in_schema: self.include_in_schema && route.include_in_schema,
            };
            let ghost prev = out@;
            out.push(entry);
            proof {
                assert(deps_view(deps@) =~= v.dependencies + deps_view(route.dependencies@));
                assert(out@.map_values(|e: RouteEntry| entry_view(e)) =~= prev.map_values(|e: RouteEntry| entry_view(e)).push(
                    entry_view(entry),
                ));
                assert(route_entries(v.routes.take(i + 1), v.prefix, v.dependencies, v.include_in_schema)
                    =~= route_entries(v.routes.take(i as int), v.prefix, v.dependencies, v.include_in_schema).push(
                    route_entry(v.routes[i as int], v.prefix, v.dependencies, v.include_in_schema),
                ));
            }
            i += 1;
        }
        proof {
            assert(v.routes.take(i as int) =~= v.routes);
        }
        out
    }
}

} // verus!
