//! The naming plan behind the generated stubs: which options apply, what
//! the module, types, constants and functions of a service are called, and
//! how a field's type is read.
use vstd::prelude::*;

verus! {

// ---------------------------------------------------------------------------
// Names for what outside functions compute.

/// The snake_case form of a name, as `heck::ToSnakeCase` computes it.
pub uninterp spec fn snake_case(s: Seq<char>) -> Seq<char>;

/// The upper-case form of a string, as `str::to_uppercase` computes it.
pub uninterp spec fn upper_case(s: Seq<char>) -> Seq<char>;

/// Whether a character has the Unicode `White_Space` property: U+0009 to
/// U+000D, U+0020, U+0085, U+00A0, U+1680, U+2000 to U+200A, U+2028,
/// U+2029, U+202F, U+205F and U+3000 (the list of Unicode's PropList.txt).
pub open spec fn is_whitespace(c: char) -> bool {
    let u = c as u32;
    ||| 0x09 <= u <= 0x0D
    ||| u == 0x20
    ||| u == 0x85
    ||| u == 0xA0
    ||| u == 0x1680
    ||| 0x2000 <= u <= 0x200A
    ||| u == 0x2028
    ||| u == 0x2029
    ||| u == 0x202F
    ||| u == 0x205F
    ||| u == 0x3000
}

/// Calls `heck::ToSnakeCase::to_snake_case`: the result is named
/// `snake_case` of the argument; nothing more is claimed of it.
#[verifier::external_body]
fn to_snake_case(s: &str) -> (r: String)
    ensures
        r@ == snake_case(s@),
{
    heck::ToSnakeCase::to_snake_case(s)
}

/// Calls `str::to_uppercase`: the result is named `upper_case` of the
/// argument; nothing more is claimed of it.
#[verifier::external_body]
fn to_upper_case(s: &str) -> (r: String)
    ensures
        r@ == upper_case(s@),
{
    s.to_uppercase()
}

/// Whether `c` has the Unicode `White_Space` property, as
/// `char::is_whitespace` tells.
fn char_is_whitespace(c: char) -> (b: bool)
    ensures
        b == is_whitespace(c),
{
    let u = c as u32;
    (0x09 <= u && u <= 0x0D) || u == 0x20 || u == 0x85 || u == 0xA0 || u == 0x1680 || (0x2000 <= u
        && u <= 0x200A) || u == 0x2028 || u == 0x2029 || u == 0x202F || u == 0x205F || u == 0x3000
}

// ---------------------------------------------------------------------------
// Trimming and field types.

/// `s` without its leading whitespace.
pub open spec fn spec_trim_start(s: Seq<char>) -> Seq<char>
    decreases s.len(),
{
    if s.len() > 0 && is_whitespace(s[0]) {
        spec_trim_start(s.subrange(1, s.len() as int))
    } else {
        s
    }
}

/// `s` without its trailing whitespace.
pub open spec fn spec_trim_end(s: Seq<char>) -> Seq<char>
    decreases s.len(),
{
    if s.len() > 0 && is_whitespace(s.last()) {
        spec_trim_end(s.drop_last())
    } else {
        s
    }
}

/// `s` without leading and trailing whitespace.
pub open spec fn spec_trim(s: Seq<char>) -> Seq<char> {
    spec_trim_end(spec_trim_start(s))
}

proof fn lemma_trim_start_suffix(s: Seq<char>)
    ensures
        exists|k: int|
            0 <= k <= s.len() && spec_trim_start(s) == s.subrange(k, s.len() as int),
    decreases s.len(),
{
    if s.len() > 0 && is_whitespace(s[0]) {
        let t = s.subrange(1, s.len() as int);
        lemma_trim_start_suffix(t);
        let k = choose|k: int| 0 <= k <= t.len() && spec_trim_start(t) == t.subrange(k, t.len() as int);
        assert(t.subrange(k, t.len() as int) =~= s.subrange(k + 1, s.len() as int));
    } else {
        assert(s.subrange(0, s.len() as int) =~= s);
    }
}

proof fn lemma_trim_end_prefix(s: Seq<char>)
    ensures
        exists|k: int| 0 <= k <= s.len() && spec_trim_end(s) == s.subrange(0, k),
    decreases s.len(),
{
    if s.len() > 0 && is_whitespace(s.last()) {
        let t = s.drop_last();
        lemma_trim_end_prefix(t);
        let k = choose|k: int| 0 <= k <= t.len() && spec_trim_end(t) == t.subrange(0, k);
        assert(t.subrange(0, k) =~= s.subrange(0, k));
    } else {
        assert(s.subrange(0, s.len() as int) =~= s);
    }
}

proof fn lemma_trim_len(s: Seq<char>)
    ensures
        spec_trim(s).len() <= s.len(),
{
    lemma_trim_start_suffix(s);
    lemma_trim_end_prefix(spec_trim_start(s));
}

/// Removes leading and trailing whitespace, as `str::trim` does.
pub fn trim(s: &str) -> (t: &str)
    ensures
        t@ == spec_trim(s@),
{
    let n = s.unicode_len();
    let mut start: usize = 0;
    assert(s@.subrange(0, n as int) =~= s@);
    while start < n && char_is_whitespace(s.get_char(start))
        invariant
            n == s@.len(),
            start <= n,
            spec_trim_start(s@) == spec_trim_start(s@.subrange(start as int, n as int)),
        decreases n - start,
    {
        proof {
            let sub = s@.subrange(start as int, n as int);
            assert(sub.subrange(1, sub.len() as int) =~= s@.subrange(start + 1, n as int));
        }
        start = start + 1;
    }
    let ghost front = s@.subrange(start as int, n as int);
    assert(spec_trim_start(s@) == front);
    let mut end: usize = n;
    while end > start && char_is_whitespace(s.get_char(end - 1))
        invariant
            n == s@.len(),
            start <= end <= n,
            front == s@.subrange(start as int, n as int),
            spec_trim_end(front) == spec_trim_end(s@.subrange(start as int, end as int)),
        decreases end - start,
    {
        proof {
            let sub = s@.subrange(start as int, end as int);
            assert(sub.drop_last() =~= s@.subrange(start as int, end - 1));
        }
        end = end - 1;
    }
    s.substring_char(start, end)
}

/// The type of a field of a request or response: `Vec<T>`, `Option<T>`, or
/// a type written by its name.
#[derive(Debug)]
pub enum FieldType {
    List(Box<FieldType>),
    Optional(Box<FieldType>),
    Named(String),
}

/// Spec form of `FieldType`.
pub enum FieldTypeView {
    List(Box<FieldTypeView>),
    Optional(Box<FieldTypeView>),
    Named(Seq<char>),
}

impl View for FieldType {
    type V = FieldTypeView;

    open spec fn view(&self) -> FieldTypeView
        decreases self,
    {
        match self {
            FieldType::List(inner) => FieldTypeView::List(Box::new((**inner).view())),
            FieldType::Optional(inner) => FieldTypeView::Optional(Box::new((**inner).view())),
            FieldType::Named(name) => FieldTypeView::Named(name@),
        }
    }
}

/// `t` is `prefix`, then something, then `>`.
pub open spec fn wraps(t: Seq<char>, prefix: Seq<char>) -> bool {
    t.len() >= prefix.len() + 1 && t.take(prefix.len() as int) == prefix && t.last() == '>'
}

/// What lies between `prefix` and the closing `>`.
pub open spec fn wrapped(t: Seq<char>, prefix: Seq<char>) -> Seq<char> {
    t.subrange(prefix.len() as int, t.len() - 1)
}

/// How a field's type is read: surrounding whitespace is dropped, then
/// `Vec<..>` and `Option<..>` are read around their inner type, and anything
/// else is a type name.
pub open spec fn spec_parse_type(s: Seq<char>) -> FieldTypeView
    decreases s.len(),
{
    let t = spec_trim(s);
    if t.len() <= s.len() {
        if wraps(t, seq!['V', 'e', 'c', '<']) {
            FieldTypeView::List(Box::new(spec_parse_type(wrapped(t, seq!['V', 'e', 'c', '<']))))
        } else if wraps(t, seq!['O', 'p', 't', 'i', 'o', 'n', '<']) {
            FieldTypeView::Optional(
                Box::new(spec_parse_type(wrapped(t, seq!['O', 'p', 't', 'i', 'o', 'n', '<']))),
            )
        } else {
            FieldTypeView::Named(t)
        }
    } else {
        FieldTypeView::Named(t)
    }
}

/// A string that neither starts nor ends with whitespace is its own trim.
proof fn lemma_trim_unchanged(s: Seq<char>)
    requires
        s.len() > 0,
        !is_whitespace(s[0]),
        !is_whitespace(s.last()),
    ensures
        spec_trim(s) == s,
{
    assert(spec_trim_start(s) == s);
}

/// Reading is compositional: `Vec<` x `>` is read as a list of what x is
/// read as, whatever x is.
pub proof fn lemma_parse_vec_of(x: Seq<char>)
    ensures
        spec_parse_type(seq!['V', 'e', 'c', '<'] + x + seq!['>']) == FieldTypeView::List(
            Box::new(spec_parse_type(x)),
        ),
{
    let s = seq!['V', 'e', 'c', '<'] + x + seq!['>'];
    assert(s[0] == 'V');
    assert(s.last() == '>');
    lemma_trim_unchanged(s);
    assert(s.take(4) =~= seq!['V', 'e', 'c', '<']);
    assert(wrapped(s, seq!['V', 'e', 'c', '<']) =~= x);
}

/// Reading is compositional: `Option<` x `>` is read as an optional of what
/// x is read as, whatever x is.
pub proof fn lemma_parse_option_of(x: Seq<char>)
    ensures
        spec_parse_type(seq!['O', 'p', 't', 'i', 'o', 'n', '<'] + x + seq!['>'])
            == FieldTypeView::Optional(Box::new(spec_parse_type(x))),
{
    let prefix = seq!['O', 'p', 't', 'i', 'o', 'n', '<'];
    let s = prefix + x + seq!['>'];
    assert(s[0] == 'O');
    assert(s.last() == '>');
    lemma_trim_unchanged(s);
    assert(s.take(4)[0] != 'V');
    assert(s.take(7) =~= prefix);
    assert(wrapped(s, prefix) =~= x);
}

/// A type name without surrounding whitespace that is not of the form
/// `Vec<..>` or `Option<..>` is read as that name.
pub proof fn lemma_parse_name(x: Seq<char>)
    requires
        x.len() > 0,
        !is_whitespace(x[0]),
        !is_whitespace(x.last()),
        !wraps(x, seq!['V', 'e', 'c', '<']),
        !wraps(x, seq!['O', 'p', 't', 'i', 'o', 'n', '<']),
    ensures
        spec_parse_type(x) == FieldTypeView::Named(x),
{
    lemma_trim_unchanged(x);
}

/// Whether `t` is `prefix`, then something, then `>`.
fn wraps_exec(t: &str, n: usize, prefix: &Vec<char>) -> (b: bool)
    requires
        n == t@.len(),
    ensures
        b == wraps(t@, prefix@),
{
    let k = prefix.len();
    if n <= k {
        return false;
    }
    let mut i: usize = 0;
    while i < k
        invariant
            k == prefix@.len(),
            n == t@.len(),
            k + 1 <= n,
            i <= k,
            forall|j: int| 0 <= j < i ==> t@[j] == prefix@[j],
        decreases k - i,
    {
        if t.get_char(i) != prefix[i] {
            assert(t@.take(k as int)[i as int] != prefix@[i as int]);
            return false;
        }
        i = i + 1;
    }
    assert(t@.take(k as int) =~= prefix@);
    t.get_char(n - 1) == '>'
}

/// Reads the type of a field the way the generator does.
pub fn parse_type(type_str: &str) -> (ty: FieldType)
    ensures
        ty@ == spec_parse_type(type_str@),
    decreases type_str@.len(),
{
    proof {
        lemma_trim_len(type_str@);
    }
    let t = trim(type_str);
    let n = t.unicode_len();
    let vec_prefix: Vec<char> = vec!['V', 'e', 'c', '<'];
    assert(vec_prefix@ =~= seq!['V', 'e', 'c', '<']);
    if wraps_exec(t, n, &vec_prefix) {
        let inner = t.substring_char(4, n - 1);
        let inner_ty = parse_type(inner);
        return FieldType::List(Box::new(inner_ty));
    }
    let option_prefix: Vec<char> = vec!['O', 'p', 't', 'i', 'o', 'n', '<'];
    assert(option_prefix@ =~= seq!['O', 'p', 't', 'i', 'o', 'n', '<']);
    if wraps_exec(t, n, &option_prefix) {
        let inner = t.substring_char(7, n - 1);
        let inner_ty = parse_type(inner);
        return FieldType::Optional(Box::new(inner_ty));
    }
    FieldType::Named(t.to_owned())
}

// ---------------------------------------------------------------------------
// Options of the generator.

/// The value given to an option: a boolean literal, a string literal, or
/// another kind of literal.
#[derive(Debug)]
pub enum OptionValue {
    Bool(bool),
    Str(String),
    Other,
}

/// What to generate: the client, the server, and the module name (when
/// none is given, it comes from the service name).
#[derive(Debug)]
pub struct GenOptions {
    pub client: bool,
    pub server: bool,
    pub module: Option<String>,
}

/// Spec form of `GenOptions`.
pub struct GenOptionsView {
    pub client: bool,
    pub server: bool,
    pub module: Option<Seq<char>>,
}

impl View for GenOptions {
    type V = GenOptionsView;

    open spec fn view(&self) -> GenOptionsView {
        GenOptionsView {
            client: self.client,
            server: self.server,
            module: match self.module {
                Some(m) => Some(m@),
                None => None,
            },
        }
    }
}

/// The options before any is given: client and server, no module name.
pub open spec fn default_options() -> GenOptionsView {
    GenOptionsView { client: true, server: true, module: None }
}

/// The effect of one option: `client` and `server` take a boolean, `module`
/// a string; an unknown key, or a value of the wrong kind, changes nothing.
pub open spec fn apply_option(o: GenOptionsView, key: Seq<char>, value: OptionValue) -> GenOptionsView {
    match value {
        OptionValue::Bool(b) => if key == seq!['c', 'l', 'i', 'e', 'n', 't'] {
            GenOptionsView { client: b, ..o }
        } else if key == seq!['s', 'e', 'r', 'v', 'e', 'r'] {
            GenOptionsView { server: b, ..o }
        } else {
            o
        },
        OptionValue::Str(m) => if key == seq!['m', 'o', 'd', 'u', 'l', 'e'] {
            GenOptionsView { module: Some(m@), ..o }
        } else {
            o
        },
        OptionValue::Other => o,
    }
}

/// The options after applying each given option in turn to the defaults; a
/// later option for a key wins.
pub open spec fn spec_resolve_options(options: Seq<(String, OptionValue)>) -> GenOptionsView
    decreases options.len(),
{
    if options.len() == 0 {
        default_options()
    } else {
        apply_option(
            spec_resolve_options(options.drop_last()),
            options.last().0@,
            options.last().1,
        )
    }
}

proof fn lemma_resolve_push(given: Seq<(String, OptionValue)>, key: String, value: OptionValue)
    ensures
        spec_resolve_options(given.push((key, value))) == apply_option(
            spec_resolve_options(given),
            key@,
            value,
        ),
{
    assert(given.push((key, value)).drop_last() =~= given);
}

/// With no option given, both the client and the server are generated and
/// no module name is set.
pub proof fn lemma_no_option_gives_defaults()
    ensures
        spec_resolve_options(Seq::<(String, OptionValue)>::empty()).client,
        spec_resolve_options(Seq::<(String, OptionValue)>::empty()).server,
        spec_resolve_options(Seq::<(String, OptionValue)>::empty()).module is None,
{
}

/// `client = b` after any options makes the client flag `b` and leaves the
/// server flag and the module name as the earlier options left them.
pub proof fn lemma_client_option(given: Seq<(String, OptionValue)>, key: String, b: bool)
    requires
        key@ == seq!['c', 'l', 'i', 'e', 'n', 't'],
    ensures
        spec_resolve_options(given.push((key, OptionValue::Bool(b)))).client == b,
        spec_resolve_options(given.push((key, OptionValue::Bool(b)))).server == spec_resolve_options(
            given,
        ).server,
        spec_resolve_options(given.push((key, OptionValue::Bool(b)))).module == spec_resolve_options(
            given,
        ).module,
{
    lemma_resolve_push(given, key, OptionValue::Bool(b));
}

/// `server = b` after any options makes the server flag `b` and leaves the
/// client flag and the module name as the earlier options left them.
pub proof fn lemma_server_option(given: Seq<(String, OptionValue)>, key: String, b: bool)
    requires
        key@ == seq!['s', 'e', 'r', 'v', 'e', 'r'],
    ensures
        spec_resolve_options(given.push((key, OptionValue::Bool(b)))).server == b,
        spec_resolve_options(given.push((key, OptionValue::Bool(b)))).client == spec_resolve_options(
            given,
        ).client,
        spec_resolve_options(given.push((key, OptionValue::Bool(b)))).module == spec_resolve_options(
            given,
        ).module,
{
    lemma_resolve_push(given, key, OptionValue::Bool(b));
    assert(key@ != seq!['c', 'l', 'i', 'e', 'n', 't']) by {
        assert(key@[0] != 'c');
    }
}

/// `module = "m"` after any options sets the module name to `m` and leaves
/// both flags as the earlier options left them.
pub proof fn lemma_module_option(given: Seq<(String, OptionValue)>, key: String, m: String)
    requires
        key@ == seq!['m', 'o', 'd', 'u', 'l', 'e'],
    ensures
        spec_resolve_options(given.push((key, OptionValue::Str(m)))).module == Some(m@),
        spec_resolve_options(given.push((key, OptionValue::Str(m)))).client == spec_resolve_options(
            given,
        ).client,
        spec_resolve_options(given.push((key, OptionValue::Str(m)))).server == spec_resolve_options(
            given,
        ).server,
{
    lemma_resolve_push(given, key, OptionValue::Str(m));
}

/// An option with another key, or a value of the wrong kind for its key,
/// changes nothing.
pub proof fn lemma_other_option_ignored(given: Seq<(String, OptionValue)>, key: String, value: OptionValue)
    requires
        key@ != seq!['c', 'l', 'i', 'e', 'n', 't'],
        key@ != seq!['s', 'e', 'r', 'v', 'e', 'r'],
        key@ != seq!['m', 'o', 'd', 'u', 'l', 'e'],
    ensures
        spec_resolve_options(given.push((key, value))) == spec_resolve_options(given),
{
    lemma_resolve_push(given, key, value);
}

/// Whether `key` spells `name`.
fn key_is(key: &String, name: &Vec<char>) -> (b: bool)
    ensures
        b == (key@ == name@),
{
    let k = key.as_str();
    let n = k.unicode_len();
    if n != name.len() {
        return false;
    }
    let mut i: usize = 0;
    while i < n
        invariant
            n == k@.len(),
            n == name@.len(),
            k@ == key@,
            i <= n,
            forall|j: int| 0 <= j < i ==> k@[j] == name@[j],
        decreases n - i,
    {
        if k.get_char(i) != name[i] {
            return false;
        }
        i = i + 1;
    }
    assert(k@ =~= name@);
    true
}

/// Applies the options given to the generator, in order, to the defaults.
pub fn resolve_options(options: &Vec<(String, OptionValue)>) -> (o: GenOptions)
    ensures
        o@ == spec_resolve_options(options@),
{
    let client_key: Vec<char> = vec!['c', 'l', 'i', 'e', 'n', 't'];
    let server_key: Vec<char> = vec!['s', 'e', 'r', 'v', 'e', 'r'];
    let module_key: Vec<char> = vec!['m', 'o', 'd', 'u', 'l', 'e'];
    assert(client_key@ =~= seq!['c', 'l', 'i', 'e', 'n', 't']);
    assert(server_key@ =~= seq!['s', 'e', 'r', 'v', 'e', 'r']);
    assert(module_key@ =~= seq!['m', 'o', 'd', 'u', 'l', 'e']);
    let mut o = GenOptions { client: true, server: true, module: None };
    let mut i: usize = 0;
    assert(options@.take(0) =~= Seq::<(String, OptionValue)>::empty());
    while i < options.len()
        invariant
            i <= options@.len(),
            client_key@ == seq!['c', 'l', 'i', 'e', 'n', 't'],
            server_key@ == seq!['s', 'e', 'r', 'v', 'e', 'r'],
            module_key@ == seq!['m', 'o', 'd', 'u', 'l', 'e'],
            o@ == spec_resolve_options(options@.take(i as int)),
        decreases options@.len() - i,
    {
        let key = &options[i].0;
        match &options[i].1 {
            OptionValue::Bool(b) => {
                if key_is(key, &client_key) {
                    o.client = *b;
                } else if key_is(key, &server_key) {
                    o.server = *b;
                }
            },
            OptionValue::Str(m) => {
                if key_is(key, &module_key) {
                    o.module = Some(m.clone());
                }
            },
            OptionValue::Other => {},
        }
        proof {
            assert(options@.take(i + 1).drop_last() =~= options@.take(i as int));
            assert(options@.take(i + 1).last() == options@[i as int]);
        }
        i = i + 1;
    }
    assert(options@.take(options@.len() as int) =~= options@);
    o
}

/// The module the generated code goes in: the name given, or else the
/// snake_case form of the service name.
pub fn module_name(module: Option<String>, service: &str) -> (m: String)
    ensures
        m@ == match module {
            Some(given) => given@,
            None => snake_case(service@),
        },
{
    match module {
        Some(given) => given,
        None => to_snake_case(service),
    }
}

// ---------------------------------------------------------------------------
// The naming plan of a service.

/// A method of a service definition: its name and the (name, type) of each
/// field of its request and of its response.
#[derive(Debug)]
pub struct MethodDefinition {
    pub name: String,
    pub request: Vec<(String, String)>,
    pub response: Vec<(String, String)>,
}

/// A service definition: the service name and its methods.
#[derive(Debug)]
pub struct ServiceDefinition {
    pub service: String,
    pub methods: Vec<MethodDefinition>,
}

/// A field of a generated request or response struct.
#[derive(Debug)]
pub struct FieldPlan {
    pub name: String,
    pub ty: FieldType,
}

/// The generated names of one method.
#[derive(Debug)]
pub struct MethodPlan {
    /// The method's name as defined.
    pub method_name: String,
    /// The client and service function, and the value of the method constant.
    pub fn_name: String,
    /// The name of the method constant: `METHOD_` and the upper-case function name.
    pub const_name: String,
    /// The request struct: the method's name and `Request`.
    pub request_type: String,
    /// The response struct: the method's name and `Response`.
    pub response_type: String,
    /// The message of the status a server returns when the service fails.
    pub failure_message: String,
    pub request_fields: Vec<FieldPlan>,
    pub response_fields: Vec<FieldPlan>,
}

/// The generated names of a service.
#[derive(Debug)]
pub struct ServicePlan {
    /// Value of the `SERVICE_NAME` constant.
    pub service_name: String,
    pub module_name: String,
    /// The client struct: the service name and `Client`.
    pub client_name: String,
    /// The trait a service implements: the service name and `Service`.
    pub service_trait_name: String,
    /// The server struct: the service name and `Server`.
    pub server_name: String,
    pub with_client: bool,
    pub with_server: bool,
    pub methods: Vec<MethodPlan>,
}

/// `plans` holds, in order, the field of each definition with its type read.
pub open spec fn fields_planned(defs: Seq<(String, String)>, plans: Seq<FieldPlan>) -> bool {
    &&& plans.len() == defs.len()
    &&& forall|i: int|
        0 <= i < defs.len() ==> (#[trigger] plans[i]).name@ == defs[i].0@ && plans[i].ty@
            == spec_parse_type(defs[i].1@)
}

/// The names of a method, given the snake_case form `snake` of its name and
/// the upper-case form `upper` of that.
pub open spec fn method_named(d: MethodDefinition, p: MethodPlan, snake: Seq<char>, upper: Seq<char>) -> bool {
    &&& p.method_name@ == d.name@
    &&& p.fn_name@ == snake
    &&& p.const_name@ == "METHOD_"@ + upper
    &&& p.request_type@ == d.name@ + "Request"@
    &&& p.response_type@ == d.name@ + "Response"@
    &&& p.failure_message@ == "Failed to "@ + snake
    &&& fields_planned(d.request@, p.request_fields@)
    &&& fields_planned(d.response@, p.response_fields@)
}

/// The names the generator gives a method.
pub open spec fn method_planned(d: MethodDefinition, p: MethodPlan) -> bool {
    method_named(d, p, snake_case(d.name@), upper_case(snake_case(d.name@)))
}

/// Plans the fields of a struct, in the order defined.
pub fn plan_fields(defs: &Vec<(String, String)>) -> (plans: Vec<FieldPlan>)
    ensures
        fields_planned(defs@, plans@),
{
    let mut plans: Vec<FieldPlan> = Vec::new();
    let mut i: usize = 0;
    while i < defs.len()
        invariant
            i <= defs@.len(),
            plans@.len() == i,
            forall|j: int|
                0 <= j < i ==> (#[trigger] plans@[j]).name@ == defs@[j].0@ && plans@[j].ty@
                    == spec_parse_type(defs@[j].1@),
        decreases defs@.len() - i,
    {
        let name = defs[i].0.clone();
        let ty = parse_type(defs[i].1.as_str());
        plans.push(FieldPlan { name, ty });
        i = i + 1;
    }
    plans
}

impl MethodPlan {
    /// The names of method `d` built from the snake_case form of its name
    /// and the upper-case form of that.
    pub fn from_names(d: &MethodDefinition, snake: String, upper: String) -> (p: MethodPlan)
        ensures
            method_named(*d, p, snake@, upper@),
    {
        let mut const_name = "METHOD_".to_owned();
        const_name.append(upper.as_str());
        let mut request_type = d.name.clone();
        request_type.append("Request");
        let mut response_type = d.name.clone();
        response_type.append("Response");
        let mut failure_message = "Failed to ".to_owned();
        failure_message.append(snake.as_str());
        MethodPlan {
            method_name: d.name.clone(),
            fn_name: snake,
            const_name,
            request_type,
            response_type,
            failure_message,
            request_fields: plan_fields(&d.request),
            response_fields: plan_fields(&d.response),
        }
    }

    /// The names the generator gives method `d`.
    pub fn plan(d: &MethodDefinition) -> (p: MethodPlan)
        ensures
            method_planned(*d, p),
    {
        let snake = to_snake_case(d.name.as_str());
        let upper = to_upper_case(snake.as_str());
        MethodPlan::from_names(d, snake, upper)
    }
}

/// The names of a service, given its module name and the plan of each method.
pub open spec fn service_named(
    d: ServiceDefinition,
    o: GenOptionsView,
    p: ServicePlan,
    module: Seq<char>,
) -> bool {
    &&& p.service_name@ == d.service@
    &&& p.module_name@ == module
    &&& p.client_name@ == d.service@ + "Client"@
    &&& p.service_trait_name@ == d.service@ + "Service"@
    &&& p.server_name@ == d.service@ + "Server"@
    &&& p.with_client == o.client
    &&& p.with_server == o.server
    &&& p.methods@.len() == d.methods@.len()
    &&& forall|i: int| 0 <= i < d.methods@.len() ==> method_planned(d.methods@[i], #[trigger] p.methods@[i])
}

/// The names the generator gives a service under the given options: the
/// module is the one given, else the snake_case service name.
pub open spec fn service_planned(d: ServiceDefinition, o: GenOptionsView, p: ServicePlan) -> bool {
    service_named(
        d,
        o,
        p,
        match o.module {
            Some(m) => m,
            None => snake_case(d.service@),
        },
    )
}

impl ServicePlan {
    /// The names of service `d` under options `o`, with the module name given.
    pub fn from_module_name(d: &ServiceDefinition, o: &GenOptions, module_name: String) -> (p: ServicePlan)
        ensures
            service_named(*d, o@, p, module_name@),
    {
        let mut client_name = d.service.clone();
        client_name.append("Client");
        let mut service_trait_name = d.service.clone();
        service_trait_name.append("Service");
        let mut server_name = d.service.clone();
        server_name.append("Server");
        let mut methods: Vec<MethodPlan> = Vec::new();
        let mut i: usize = 0;
        while i < d.methods.len()
            invariant
                i <= d.methods@.len(),
                methods@.len() == i,
                forall|j: int| 0 <= j < i ==> method_planned(d.methods@[j], #[trigger] methods@[j]),
            decreases d.methods@.len() - i,
        {
            methods.push(MethodPlan::plan(&d.methods[i]));
            i = i + 1;
        }
        ServicePlan {
            service_name: d.service.clone(),
            module_name,
            client_name,
            service_trait_name,
            server_name,
            with_client: o.client,
            with_server: o.server,
            methods,
        }
    }

    /// The names the generator gives service `d` under options `o`.
    pub fn plan(d: &ServiceDefinition, o: &GenOptions) -> (p: ServicePlan)
        ensures
            service_planned(*d, o@, p),
    {
        let module = match &o.module {
            Some(m) => Some(m.clone()),
            None => None,
        };
        let name = module_name(module, d.service.as_str());
        ServicePlan::from_module_name(d, o, name)
    }
}

// ---------------------------------------------------------------------------
// Generated clients and servers agree on routes.

/// The route of method `i` of a plan: the generated client calls
/// (`SERVICE_NAME`, method constant) and the generated server registers its
/// handler under the same pair; the constant's value is the function name.
pub open spec fn method_route(p: ServicePlan, i: int) -> crate::server::RouteKey {
    (p.service_name@, p.methods@[i].fn_name@)
}

/// The table after a generated server registers the handlers of the first
/// `k` methods of plan `p`, in order, into `table`.
pub open spec fn register_methods<H>(
    table: Map<crate::server::RouteKey, H>,
    p: ServicePlan,
    handlers: Seq<H>,
    k: nat,
) -> Map<crate::server::RouteKey, H>
    decreases k,
{
    if k == 0 {
        table
    } else {
        register_methods(table, p, handlers, (k - 1) as nat).insert(
            method_route(p, k - 1),
            handlers[k - 1],
        )
    }
}

proof fn lemma_register_methods<H>(
    table: Map<crate::server::RouteKey, H>,
    p: ServicePlan,
    handlers: Seq<H>,
    k: nat,
    i: int,
)
    requires
        0 <= i < k,
    ensures
        register_methods(table, p, handlers, k).contains_key(method_route(p, i)),
        (forall|j: int| 0 <= j < k && j != i ==> method_route(p, j) != method_route(p, i))
            ==> register_methods(table, p, handlers, k)[method_route(p, i)] == handlers[i],
    decreases k,
{
    if i < k - 1 {
        lemma_register_methods(table, p, handlers, (k - 1) as nat, i);
    }
}

/// A client and a server generated from the same definition agree: the
/// route a client method calls is (service, snake_case of the method), the
/// server registers a handler under it, so the request is dispatched there;
/// and when no other method has that route, it is that method's handler.
pub proof fn lemma_generated_routes_agree<H>(
    d: ServiceDefinition,
    o: GenOptionsView,
    p: ServicePlan,
    table: Map<crate::server::RouteKey, H>,
    handlers: Seq<H>,
    i: int,
    request: crate::protocol::RPCEnvelope,
    sequence_number: u64,
    payload: Seq<u8>,
    action: crate::server::ServerAction,
)
    requires
        service_planned(d, o, p),
        handlers.len() == p.methods@.len(),
        0 <= i < p.methods@.len(),
        crate::protocol::is_request(
            request,
            sequence_number,
            method_route(p, i).0,
            method_route(p, i).1,
            payload,
        ),
        crate::server::action_for(
            register_methods(table, p, handlers, p.methods@.len()),
            crate::server::Incoming::Envelope(request),
            action,
        ),
    ensures
        method_route(p, i) == (d.service@, snake_case(d.methods@[i].name@)),
        register_methods(table, p, handlers, p.methods@.len()).contains_key(method_route(p, i)),
        action matches crate::server::ServerAction::Dispatch {
            sequence_number: n,
            service_name,
            method_name,
            payload: q,
        } && n == sequence_number && (service_name@, method_name@) == method_route(p, i) && q@
            == payload,
        (forall|j: int| 0 <= j < p.methods@.len() && j != i ==> method_route(p, j) != method_route(p, i))
            ==> register_methods(table, p, handlers, p.methods@.len())[method_route(p, i)]
            == handlers[i],
{
    assert(method_planned(d.methods@[i], p.methods@[i]));
    lemma_register_methods(table, p, handlers, p.methods@.len(), i);
}

} // verus!
