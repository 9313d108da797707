//! The result of matching a request to a route: extracted path parameters
//! and their conversions, and the allowed methods of a path.
use vstd::prelude::*;
use vstd::utf8::*;
use crate::method::{method_name, Method};
use crate::text::{all_hex, chars_of, hex_digit, hex_digit_value, push_str, split_char, split_chars, str_eq, vecs_view};

verus! {

// ---------------------------------------------------------------------------
// Integer conversion of parameters
// ---------------------------------------------------------------------------

#[verifier::external_type_specification]
#[verifier::external_body]
pub struct ExParseIntError(std::num::ParseIntError);

/// The value of a nonempty string of decimal digits.
pub open spec fn digits_value(s: Seq<char>) -> Option<nat>
    decreases s.len(),
{
    if s.len() == 0 {
        None
    } else {
        let d = s.last();
        if !('0' <= d && d <= '9') {
            None
        } else if s.len() == 1 {
            Some((d as nat - '0' as nat) as nat)
        } else {
            match digits_value(s.drop_last()) {
                Some(v) => Some(v * 10 + (d as nat - '0' as nat) as nat),
                None => None,
            }
        }
    }
}

/// The integer a string denotes as `str::parse` reads signed integers: an
/// optional `+` or `-`, then decimal digits.
pub open spec fn signed_value(s: Seq<char>) -> Option<int> {
    if s.len() > 0 && s[0] == '-' {
        match digits_value(s.drop_first()) {
            Some(v) => Some(-v),
            None => None,
        }
    } else if s.len() > 0 && s[0] == '+' {
        match digits_value(s.drop_first()) {
            Some(v) => Some(v as int),
            None => None,
        }
    } else {
        match digits_value(s) {
            Some(v) => Some(v as int),
            None => None,
        }
    }
}

/// The integer a string denotes as `str::parse` reads unsigned integers: an
/// optional `+`, then decimal digits.
pub open spec fn unsigned_value(s: Seq<char>) -> Option<nat> {
    if s.len() > 0 && s[0] == '+' {
        digits_value(s.drop_first())
    } else {
        digits_value(s)
    }
}

/// `str::parse::<i64>`: `Ok` exactly when the text is an optional sign and
/// decimal digits whose value fits, holding that value.
#[verifier::external_body]
fn parse_i64(s: &str) -> (r: Result<i64, std::num::ParseIntError>)
    ensures
        r is Ok <==> (signed_value(s@) matches Some(v) && i64::MIN <= v <= i64::MAX),
        r matches Ok(v) ==> signed_value(s@) == Some(v as int),
{
    s.parse::<i64>()
}

/// `str::parse::<i32>`: `Ok` exactly when the text is an optional sign and
/// decimal digits whose value fits, holding that value.
#[verifier::external_body]
fn parse_i32(s: &str) -> (r: Result<i32, std::num::ParseIntError>)
    ensures
        r is Ok <==> (signed_value(s@) matches Some(v) && i32::MIN <= v <= i32::MAX),
        r matches Ok(v) ==> signed_value(s@) == Some(v as int),
{
    s.parse::<i32>()
}

/// `str::parse::<u64>`: `Ok` exactly when the text is an optional `+` and
/// decimal digits whose value fits, holding that value.
#[verifier::external_body]
fn parse_u64(s: &str) -> (r: Result<u64, std::num::ParseIntError>)
    ensures
        r is Ok <==> (unsigned_value(s@) matches Some(v) && v <= u64::MAX),
        r matches Ok(v) ==> unsigned_value(s@) == Some(v as nat),
{
    s.parse::<u64>()
}

/// `str::parse::<u32>`: `Ok` exactly when the text is an optional `+` and
/// decimal digits whose value fits, holding that value.
#[verifier::external_body]
fn parse_u32(s: &str) -> (r: Result<u32, std::num::ParseIntError>)
    ensures
        r is Ok <==> (unsigned_value(s@) matches Some(v) && v <= u32::MAX),
        r matches Ok(v) ==> unsigned_value(s@) == Some(v as nat),
{
    s.parse::<u32>()
}

// ---------------------------------------------------------------------------
// UUIDs
// ---------------------------------------------------------------------------

/// A nonempty string of hexadecimal digits of `n` bytes.
pub open spec fn hex_part(p: Seq<char>, n: nat) -> bool {
    encode_utf8(p).len() == n && all_hex(p)
}

/// The 8-4-4-4-12 form of a UUID.
pub open spec fn uuid_shape(s: Seq<char>) -> bool {
    let parts = split_char(s, '-');
    &&& encode_utf8(s).len() == 36
    &&& parts.len() == 5
    &&& hex_part(parts[0], 8)
    &&& hex_part(parts[1], 4)
    &&& hex_part(parts[2], 4)
    &&& hex_part(parts[3], 4)
    &&& hex_part(parts[4], 12)
}

fn is_hex_part(p: &Vec<char>, n: usize) -> (r: bool)
    ensures
        r == hex_part(p@, n as nat),
{
    let mut i: usize = 0;
    while i < p.len()
        invariant
            i <= p@.len(),
            forall|j: int| 0 <= j < i ==> (#[trigger] hex_digit_value(p@[j])) is Some,
        decreases p@.len() - i,
    {
        if hex_digit(p[i]).is_none() {
            assert(!all_hex(p@));
            return false;
        }
        i += 1;
    }
    let s = crate::text::string_from_chars(p.as_slice());
    let len = s.as_str().as_bytes().len();
    len == n
}

/// The text has the 8-4-4-4-12 form of a UUID in hexadecimal digits.
pub fn is_valid_uuid(s: &str) -> (r: bool)
    ensures
        r == uuid_shape(s@),
{
    if s.as_bytes().len() != 36 {
        return false;
    }
    let cs = chars_of(s);
    let parts = split_chars(cs.as_slice(), '-');
    assert(vecs_view(parts@) == split_char(s@, '-'));
    if parts.len() != 5 {
        return false;
    }
    assert(forall|i: int| 0 <= i < 5 ==> parts@[i]@ == split_char(s@, '-')[i]);
    is_hex_part(&parts[0], 8) && is_hex_part(&parts[1], 4) && is_hex_part(&parts[2], 4) && is_hex_part(&parts[3], 4)
        && is_hex_part(&parts[4], 12)
}

// ---------------------------------------------------------------------------
// Route matches
// ---------------------------------------------------------------------------

/// The parameters extracted by a route match.
#[derive(Debug)]
pub struct RouteMatch<'a> {
    /// Name and value of each path parameter, in the order of the pattern.
    pub params: Vec<(&'a str, &'a str)>,
}

pub open spec fn params_view<'a>(p: Seq<(&'a str, &'a str)>) -> Seq<(Seq<char>, Seq<char>)> {
    p.map_values(|x: (&'a str, &'a str)| (x.0@, x.1@))
}

/// The value of the first parameter named `name`.
pub open spec fn param_value(ps: Seq<(Seq<char>, Seq<char>)>, name: Seq<char>) -> Option<Seq<char>>
    decreases ps.len(),
{
    if ps.len() == 0 {
        None
    } else if ps[0].0 == name {
        Some(ps[0].1)
    } else {
        param_value(ps.drop_first(), name)
    }
}

pub open spec fn opt_text<'a>(o: Option<&'a str>) -> Option<Seq<char>> {
    match o {
        Some(s) => Some(s@),
        None => None,
    }
}

impl<'a> RouteMatch<'a> {
    /// The value of the parameter named `name`.
    pub fn get_param(&self, name: &str) -> (r: Option<&'a str>)
        ensures
            opt_text(r) == param_value(params_view(self.params@), name@),
    {
        let mut i: usize = 0;
        assert(params_view(self.params@).skip(0) =~= params_view(self.params@));
        while i < self.params.len()
            invariant
                i <= self.params@.len(),
                param_value(params_view(self.params@), name@) == param_value(params_view(self.params@).skip(i as int), name@),
            decreases self.params@.len() - i,
        {
            let ghost rest = params_view(self.params@).skip(i as int);
            assert(rest[0] == (self.params@[i as int].0@, self.params@[i as int].1@));
            assert(rest.drop_first() =~= params_view(self.params@).skip(i + 1));
            let (n, v) = self.params[i];
            if str_eq(n, name) {
                return Some(v);
            }
            i += 1;
        }
        None
    }

    /// The parameter as an `i64`; `None` when it is absent.
    pub fn get_param_int(&self, name: &str) -> (r: Option<Result<i64, std::num::ParseIntError>>)
        ensures
            r is None <==> param_value(params_view(self.params@), name@) is None,
            r matches Some(x) ==> (x is Ok <==> (signed_value(param_value(params_view(self.params@), name@)->0) matches Some(v)
                && i64::MIN <= v <= i64::MAX)),
            r matches Some(Ok(v)) ==> signed_value(param_value(params_view(self.params@), name@)->0) == Some(v as int),
    {
        match self.get_param(name) {
            Some(s) => Some(parse_i64(s)),
            None => None,
        }
    }

    /// The parameter as an `i32`; `None` when it is absent.
    pub fn get_param_i32(&self, name: &str) -> (r: Option<Result<i32, std::num::ParseIntError>>)
        ensures
            r is None <==> param_value(params_view(self.params@), name@) is None,
            r matches Some(x) ==> (x is Ok <==> (signed_value(param_value(params_view(self.params@), name@)->0) matches Some(v)
                && i32::MIN <= v <= i32::MAX)),
            r matches Some(Ok(v)) ==> signed_value(param_value(params_view(self.params@), name@)->0) == Some(v as int),
    {
        match self.get_param(name) {
            Some(s) => Some(parse_i32(s)),
            None => None,
        }
    }

    /// The parameter as a `u64`; `None` when it is absent.
    pub fn get_param_u64(&self, name: &str) -> (r: Option<Result<u64, std::num::ParseIntError>>)
        ensures
            r is None <==> param_value(params_view(self.params@), name@) is None,
            r matches Some(x) ==> (x is Ok <==> (unsigned_value(param_value(params_view(self.params@), name@)->0) matches Some(v)
                && v <= u64::MAX)),
            r matches Some(Ok(v)) ==> unsigned_value(param_value(params_view(self.params@), name@)->0) == Some(v as nat),
    {
        match self.get_param(name) {
            Some(s) => Some(parse_u64(s)),
            None => None,
        }
    }

    /// The parameter as a `u32`; `None` when it is absent.
    pub fn get_param_u32(&self, name: &str) -> (r: Option<Result<u32, std::num::ParseIntError>>)
        ensures
            r is None <==> param_value(params_view(self.params@), name@) is None,
            r matches Some(x) ==> (x is Ok <==> (unsigned_value(param_value(params_view(self.params@), name@)->0) matches Some(v)
                && v <= u32::MAX)),
            r matches Some(Ok(v)) ==> unsigned_value(param_value(params_view(self.params@), name@)->0) == Some(v as nat),
    {
        match self.get_param(name) {
            Some(s) => Some(parse_u32(s)),
            None => None,
        }
    }

    /// Whether the parameter is a UUID; `None` when it is absent.
    pub fn is_param_uuid(&self, name: &str) -> (r: Option<bool>)
        ensures
            r == (match param_value(params_view(self.params@), name@) {
                Some(v) => Some(uuid_shape(v)),
                None => None,
            }),
    {
        match self.get_param(name) {
            Some(s) => Some(is_valid_uuid(s)),
            None => None,
        }
    }

    /// The number of parameters.
    pub fn param_count(&self) -> (n: usize)
        ensures
            n == self.params@.len(),
    {
        self.params.len()
    }

    /// There are no parameters.
    pub fn is_empty(&self) -> (r: bool)
        ensures
            r == (self.params@.len() == 0),
    {
        self.params.len() == 0
    }

    /// The parameters as (name, value) pairs.
    pub fn iter(&self) -> (v: Vec<(&'a str, &'a str)>)
        ensures
            v@ == self.params@,
    {
        let mut v: Vec<(&'a str, &'a str)> = Vec::new();
        let mut i: usize = 0;
        while i < self.params.len()
            invariant
                i <= self.params@.len(),
                v@ == self.params@.take(i as int),
            decreases self.params@.len() - i,
        {
            v.push(self.params[i]);
            i += 1;
            assert(v@ =~= self.params@.take(i as int));
        }
        assert(self.params@.take(self.params@.len() as int) =~= self.params@);
        v
    }
}

// ---------------------------------------------------------------------------
// Allowed methods
// ---------------------------------------------------------------------------

/// The order in which allowed methods are listed.
pub open spec fn method_order(m: Method) -> nat {
    match m {
        Method::Get => 0,
        Method::Head => 1,
        Method::Post => 2,
        Method::Put => 3,
        Method::Delete => 4,
        Method::Patch => 5,
        Method::Options => 6,
        Method::Trace => 7,
    }
}

/// Every method, in listing order.
pub open spec fn all_methods() -> Seq<Method> {
    seq![Method::Get, Method::Head, Method::Post, Method::Put, Method::Delete, Method::Patch, Method::Options, Method::Trace]
}

/// A method is allowed when given, and HEAD is allowed with GET.
pub open spec fn allowed_in(given: Seq<Method>, m: Method) -> bool {
    given.contains(m) || (m == Method::Head && given.contains(Method::Get))
}

/// The allowed methods among the first `k` in listing order.
pub open spec fn allowed_prefix(given: Seq<Method>, k: nat) -> Seq<Method>
    decreases k,
{
    if k == 0 || k > 8 {
        Seq::empty()
    } else {
        let m = all_methods()[k - 1];
        allowed_prefix(given, (k - 1) as nat) + if allowed_in(given, m) { seq![m] } else { Seq::empty() }
    }
}

/// The normalized allow list: the allowed methods in listing order.
pub open spec fn normalized(given: Seq<Method>) -> Seq<Method> {
    allowed_prefix(given, 8)
}

proof fn lemma_allowed_prefix(given: Seq<Method>, k: nat)
    requires
        k <= 8,
    ensures
        forall|i: int| 0 <= i < allowed_prefix(given, k).len() ==> method_order(#[trigger] allowed_prefix(given, k)[i]) < k,
        forall|i: int, j: int| 0 <= i < j < allowed_prefix(given, k).len() ==> method_order(allowed_prefix(given, k)[i]) < method_order(allowed_prefix(given, k)[j]),
        forall|m: Method| allowed_prefix(given, k).contains(m) <==> (allowed_in(given, m) && method_order(m) < k),
    decreases k,
{
    if k > 0 {
        lemma_allowed_prefix(given, (k - 1) as nat);
        let prev = allowed_prefix(given, (k - 1) as nat);
        let m = all_methods()[k - 1];
        assert(method_order(m) == k - 1);
        let cur = allowed_prefix(given, k);
        assert forall|x: Method| cur.contains(x) <==> (allowed_in(given, x) && method_order(x) < k) by {
            if cur.contains(x) {
                let i = choose|i: int| 0 <= i < cur.len() && cur[i] == x;
                if i >= prev.len() {
                    assert(x == m);
                } else {
                    assert(prev[i] == x);
                    assert(prev.contains(x));
                }
            }
            if allowed_in(given, x) && method_order(x) < k {
                if method_order(x) == k - 1 {
                    assert(x == m) by {
                        match x {
                            Method::Get => {},
                            Method::Head => {},
                            Method::Post => {},
                            Method::Put => {},
                            Method::Delete => {},
                            Method::Patch => {},
                            Method::Options => {},
                            Method::Trace => {},
                        }
                    }
                    assert(cur[cur.len() - 1] == x);
                } else {
                    assert(prev.contains(x));
                    let i = choose|i: int| 0 <= i < prev.len() && prev[i] == x;
                    assert(cur[i] == x);
                }
            }
        }
    }
}

/// The normalized list is sorted by listing order without repeats, holds
/// HEAD whenever it holds GET, and holds exactly the given methods besides.
pub proof fn lemma_normalized(given: Seq<Method>)
    ensures
        forall|i: int, j: int| 0 <= i < j < normalized(given).len() ==> method_order(normalized(given)[i]) < method_order(normalized(given)[j]),
        forall|m: Method| normalized(given).contains(m) <==> allowed_in(given, m),
        normalized(given).contains(Method::Get) ==> normalized(given).contains(Method::Head),
{
    lemma_allowed_prefix(given, 8);
    assert(normalized(given).contains(Method::Get) <==> allowed_in(given, Method::Get));
    assert(normalized(given).contains(Method::Head) <==> allowed_in(given, Method::Head));
}

/// The methods allowed on a matched path.
#[derive(Debug, Clone)]
pub struct AllowedMethods {
    methods: Vec<Method>,
}

impl View for AllowedMethods {
    type V = Seq<Method>;

    closed spec fn view(&self) -> Seq<Method> {
        self.methods@
    }
}

fn method_in(ms: &Vec<Method>, m: Method) -> (r: bool)
    ensures
        r == ms@.contains(m),
{
    let mut i: usize = 0;
    while i < ms.len()
        invariant
            i <= ms@.len(),
            forall|j: int| 0 <= j < i ==> ms@[j] != m,
        decreases ms@.len() - i,
    {
        if ms[i] == m {
            return true;
        }
        i += 1;
    }
    false
}

impl AllowedMethods {
    /// The normalized allow list of the given methods: HEAD is added when
    /// GET is there, the list is sorted and has no repeats.
    pub fn new(methods: Vec<Method>) -> (a: Self)
        ensures
            a@ == normalized(methods@),
    {
        let all: [Method; 8] = [
            Method::Get,
            Method::Head,
            Method::Post,
            Method::Put,
            Method::Delete,
            Method::Patch,
            Method::Options,
            Method::Trace,
        ];
        assert(all@ =~= all_methods());
        let has_get = method_in(&methods, Method::Get);
        let mut out: Vec<Method> = Vec::new();
        let mut k: usize = 0;
        while k < 8
            invariant
                k <= 8,
                all@ == all_methods(),
                has_get == methods@.contains(Method::Get),
                out@ == allowed_prefix(methods@, k as nat),
            decreases 8 - k,
        {
            let m = all[k];
            if method_in(&methods, m) || (m == Method::Head && has_get) {
                out.push(m);
            }
            k += 1;
            assert(out@ =~= allowed_prefix(methods@, k as nat));
        }
        AllowedMethods { methods: out }
    }

    /// The normalized methods.
    pub fn methods(&self) -> (m: &[Method])
        ensures
            m@ == self@,
    {
        self.methods.as_slice()
    }

    /// The method is allowed.
    pub fn contains(&self, method: Method) -> (r: bool)
        ensures
            r == self@.contains(method),
    {
        method_in(&self.methods, method)
    }

    /// The list as an HTTP `Allow` header value.
    pub fn header_value(&self) -> (s: String)
        ensures
            s@ == crate::text::join_with(self@.map_values(|m: Method| method_name(m)), ", "@),
    {
        let mut s = String::new();
        let mut i: usize = 0;
        while i < self.methods.len()
            invariant
                i <= self@.len(),
                s@ == crate::text::join_with(self@.take(i as int).map_values(|m: Method| method_name(m)), ", "@),
            decreases self@.len() - i,
        {
            let ghost prev = self@.take(i as int).map_values(|m: Method| method_name(m));
            if i > 0 {
                push_str(&mut s, ", ");
            }
            push_str(&mut s, self.methods[i].as_str());
            i += 1;
            proof {
                let cur = self@.take(i as int).map_values(|m: Method| method_name(m));
                assert(cur.drop_last() =~= prev);
                if i == 1 {
                    assert(prev =~= Seq::<Seq<char>>::empty());
                }
            }
        }
        assert(self@.take(self@.len() as int) =~= self@);
        s
    }
}

/// Result of attempting to locate a route by path and method.
#[derive(Debug)]
pub enum RouteLookup<'a> {
    /// A route matched by path and method.
    Match(RouteMatch<'a>),
    /// Path matched, but method is not allowed.
    MethodNotAllowed { allowed: AllowedMethods },
    /// No route matched the path.
    NotFound,
}

} // verus!
