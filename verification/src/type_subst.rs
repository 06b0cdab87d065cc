//! Type arguments, and putting them in the place of type parameters.
use vstd::prelude::*;
use vstd::string::*;

use crate::brackets;
use crate::columns;
use crate::deps::InferDeps;
use crate::deps::Facts;
use crate::lambda_types;
use crate::lists;
use crate::sig;
use crate::text;
use crate::text::CharClass;
use crate::unicode;

verus! {

// ---------------------------------------------------------------------------
// Type parameters
// ---------------------------------------------------------------------------

/// Whether a name looks like a type parameter: one uppercase letter, with or without a digit.
pub open spec fn generic_param(s: Seq<char>) -> bool {
    (s.len() == 1 || s.len() == 2) && unicode::uppercase(s[0]) && (s.len() == 2 ==> '0' <= s[1]
        <= '9')
}

/// Whether a name looks like a type parameter.
pub fn is_generic_param(s: &str) -> (r: bool)
    ensures
        r == generic_param(s@),
{
    let n: usize = s.unicode_len();
    if n == 1 {
        s.get_char(0).is_uppercase()
    } else if n == 2 {
        let digit = s.get_char(1);
        s.get_char(0).is_uppercase() && '0' <= digit && digit <= '9'
    } else {
        false
    }
}

/// Whether a name is one of the declared type parameters.
pub fn is_declared_type_param(name: &str, type_params: &Vec<String>) -> (r: bool)
    ensures
        r == type_params.deep_view().contains(name@),
{
    let ghost all = type_params.deep_view();
    let mut i: usize = 0;
    while i < type_params.len()
        invariant
            i <= type_params@.len(),
            all == type_params.deep_view(),
            forall|k: int| 0 <= k < i ==> #[trigger] all[k] != name@,
        decreases type_params@.len() - i,
    {
        assert(all[i as int] == type_params@[i as int]@);
        if text::same(type_params[i].as_str(), name) {
            return true;
        }
        i += 1;
    }
    false
}

// ---------------------------------------------------------------------------
// Type arguments
// ---------------------------------------------------------------------------

/// What stands between the outermost angle brackets of a type.
pub open spec fn args_inner(t: Seq<char>) -> Option<Seq<char>> {
    match (text::index_of(t, '<'), text::rindex_of(t, '>')) {
        (Some(i), Some(j)) => if i < j {
            Some(t.subrange(i + 1, j))
        } else {
            None
        },
        _ => None,
    }
}

/// What stands between the outermost angle brackets of a type.
pub fn type_args_inner<'a>(t: &'a str) -> (r: Option<&'a str>)
    ensures
        r.deep_view() == args_inner(t@),
{
    match (text::find_char(t, '<'), text::rfind_char(t, '>')) {
        (Some(i), Some(j)) => if i < j {
            Some(text::slice(t, i + 1, j))
        } else {
            None
        },
        _ => None,
    }
}

/// Each text without the whitespace round it.
pub open spec fn all_trimmed(s: Seq<Seq<char>>) -> Seq<Seq<char>> {
    s.map_values(|t: Seq<char>| text::trimmed(t))
}

/// The type arguments of a type.
pub open spec fn type_args(t: Seq<char>) -> Seq<Seq<char>> {
    match args_inner(t) {
        Some(inner) => all_trimmed(sig::params_in(inner)),
        None => Seq::empty(),
    }
}

/// The type arguments of a type.
pub fn type_args_of<'a>(t: &'a str) -> (r: Vec<&'a str>)
    ensures
        r.deep_view() == type_args(t@),
{
    let mut out: Vec<&'a str> = Vec::new();
    match type_args_inner(t) {
        Some(inner) => {
            let parts = sig::params_of(inner);
            let ghost all = parts.deep_view();
            let mut i: usize = 0;
            while i < parts.len()
                invariant
                    i <= parts@.len(),
                    all == parts.deep_view(),
                    out.deep_view() == all_trimmed(all.take(i as int)),
                decreases parts@.len() - i,
            {
                let ghost before = out.deep_view();
                let arg = text::trim(parts[i]);
                proof {
                    assert(all[i as int] == parts@[i as int]@);
                    assert(all_trimmed(all.take(i + 1)) =~= all_trimmed(all.take(i as int)).push(
                        arg@,
                    ));
                }
                out.push(arg);
                assert(out.deep_view() =~= before.push(arg@));
                i += 1;
            }
            assert(all.take(all.len() as int) =~= all);
            out
        },
        None => {
            assert(out.deep_view() =~= Seq::empty());
            out
        },
    }
}

/// The first type argument of a type.
pub open spec fn first_type_arg(t: Seq<char>) -> Option<Seq<char>> {
    if type_args(t).len() > 0 {
        Some(type_args(t)[0])
    } else {
        None
    }
}

/// The first type argument of a type.
pub fn first_type_arg_raw(t: &str) -> (r: Option<String>)
    ensures
        r.deep_view() == first_type_arg(t@),
{
    let args = type_args_of(t);
    let ghost all = args.deep_view();
    if args.len() == 0 {
        None
    } else {
        assert(all[0] == args@[0]@);
        Some(args[0].to_owned())
    }
}

/// Whether a type argument names a type and not a type parameter.
pub open spec fn concrete_arg() -> spec_fn(Seq<char>) -> bool {
    |t: Seq<char>|
        text::upper_start(t) && !generic_param(text::without_suffix_of(t, text::only('?')))
}

/// The first type argument that names a type, without the question mark of a nullable one.
pub open spec fn first_concrete_arg(t: Seq<char>) -> Option<Seq<char>> {
    match lists::find_where(type_args(t), concrete_arg()) {
        Some(a) => Some(text::without_suffix_of(a, text::only('?'))),
        None => None,
    }
}

/// The first type argument that names a type, without the question mark of a nullable one.
pub fn first_concrete_type_arg_str(t: &str) -> (r: Option<String>)
    ensures
        r.deep_view() == first_concrete_arg(t@),
{
    let args = type_args_of(t);
    let ghost all = args.deep_view();
    let ghost p = concrete_arg();
    let mut i: usize = 0;
    while i < args.len()
        invariant
            i <= args@.len(),
            all == args.deep_view(),
            all == type_args(t@),
            p == concrete_arg(),
            forall|k: int| 0 <= k < i ==> !p(#[trigger] all[k]),
        decreases args@.len() - i,
    {
        assert(all[i as int] == args@[i as int]@);
        let plain = text::trim_end_class(args[i], CharClass::Only('?'));
        if text::starts_with_uppercase(args[i]) && !is_generic_param(plain) {
            proof {
                lists::lemma_first(all, p, i as int);
            }
            return Some(plain.to_owned());
        }
        i += 1;
    }
    proof {
        lists::lemma_no_first(all, p);
    }
    None
}

/// Whether a type of the name holds elements of its one type argument.
pub open spec fn collection(name: Seq<char>) -> bool {
    ||| name == "List"@
    ||| name == "MutableList"@
    ||| name == "ArrayList"@
    ||| name == "Set"@
    ||| name == "MutableSet"@
    ||| name == "HashSet"@
    ||| name == "LinkedHashSet"@
    ||| name == "Collection"@
    ||| name == "MutableCollection"@
    ||| name == "Iterable"@
    ||| name == "Sequence"@
    ||| name == "Array"@
    ||| name == "Flow"@
    ||| name == "StateFlow"@
    ||| name == "MutableStateFlow"@
    ||| name == "SharedFlow"@
    ||| name == "MutableSharedFlow"@
    ||| name == "ImmutableList"@
    ||| name == "PersistentList"@
    ||| name == "ImmutableSet"@
    ||| name == "PersistentSet"@
    ||| name == "ImmutableCollection"@
}

fn is_collection(name: &str) -> (r: bool)
    ensures
        r == collection(name@),
{
    text::same(name, "List") || text::same(name, "MutableList") || text::same(name, "ArrayList")
        || text::same(name, "Set") || text::same(name, "MutableSet") || text::same(
        name,
        "HashSet",
    ) || text::same(name, "LinkedHashSet") || text::same(name, "Collection") || text::same(
        name,
        "MutableCollection",
    ) || text::same(name, "Iterable") || text::same(name, "Sequence") || text::same(
        name,
        "Array",
    ) || text::same(name, "Flow") || text::same(name, "StateFlow") || text::same(
        name,
        "MutableStateFlow",
    ) || text::same(name, "SharedFlow") || text::same(name, "MutableSharedFlow") || text::same(
        name,
        "ImmutableList",
    ) || text::same(name, "PersistentList") || text::same(name, "ImmutableSet") || text::same(
        name,
        "PersistentSet",
    ) || text::same(name, "ImmutableCollection")
}

/// The name of a class as a type gives it: the last segment of its dotted name.
pub open spec fn class_base(t: Seq<char>) -> Seq<char> {
    text::last_segment_of(text::dotted_ident_of(t))
}

/// The name of the type of a collection's elements.
pub open spec fn element_type(t: Seq<char>) -> Option<Seq<char>> {
    if collection(class_base(t)) {
        match first_type_arg(t) {
            Some(a) => lambda_types::type_base(a),
            None => None,
        }
    } else {
        None
    }
}

/// The name of the type of a collection's elements.
pub fn extract_collection_element_type(t: &str) -> (r: Option<String>)
    ensures
        r.deep_view() == element_type(t@),
{
    if is_collection(text::last_segment(text::dotted_ident_prefix(t))) {
        match first_type_arg_raw(t) {
            Some(a) => lambda_types::base_of_type(a.as_str()),
            None => None,
        }
    } else {
        None
    }
}

// ---------------------------------------------------------------------------
// Substitution
// ---------------------------------------------------------------------------

/// What stands for each type parameter; the first of two for one parameter counts.
pub type Subst = Seq<(Seq<char>, Seq<char>)>;

/// Whether a pair is for the parameter.
pub open spec fn stands_for(name: Seq<char>) -> spec_fn((Seq<char>, Seq<char>)) -> bool {
    |p: (Seq<char>, Seq<char>)| p.0 == name
}

/// What stands for a name.
pub open spec fn value_of(subst: Subst, name: Seq<char>) -> Option<Seq<char>> {
    match lists::find_where(subst, stands_for(name)) {
        Some(p) => Some(p.1),
        None => None,
    }
}

/// What stands for a name.
pub fn subst_value<'a>(subst: &'a Vec<(String, String)>, name: &str) -> (r: Option<&'a str>)
    ensures
        r.deep_view() == value_of(subst.deep_view(), name@),
{
    let ghost all = subst.deep_view();
    let ghost p = stands_for(name@);
    let mut i: usize = 0;
    while i < subst.len()
        invariant
            i <= subst@.len(),
            all == subst.deep_view(),
            p == stands_for(name@),
            forall|k: int| 0 <= k < i ==> !p(#[trigger] all[k]),
        decreases subst@.len() - i,
    {
        assert(all[i as int] == subst@[i as int].deep_view());
        if text::same(subst[i].0.as_str(), name) {
            proof {
                lists::lemma_first(all, p, i as int);
            }
            return Some(subst[i].1.as_str());
        }
        i += 1;
    }
    proof {
        lists::lemma_no_first(all, p);
    }
    None
}

/// A name, or what stands for it.
pub open spec fn replacement(subst: Subst, name: Seq<char>) -> Seq<char> {
    match value_of(subst, name) {
        Some(v) => v,
        None => name,
    }
}

/// A type with each identifier replaced by what stands for it.
pub open spec fn substituted(t: Seq<char>, subst: Subst) -> Seq<char>
    decreases t.len(),
{
    let n = text::span(t, text::ident_class());
    if t.len() == 0 {
        Seq::empty()
    } else if 0 < n <= t.len() {
        replacement(subst, t.take(n)) + substituted(t.skip(n), subst)
    } else {
        seq![t[0]] + substituted(t.skip(1), subst)
    }
}

/// A type with each identifier replaced by what stands for it.
pub fn apply_type_subst(t: &str, subst: &Vec<(String, String)>) -> (r: String)
    ensures
        r@ == substituted(t@, subst.deep_view()),
{
    let c = text::chars_of(t);
    let n: usize = c.len();
    let ghost sub = subst.deep_view();
    let mut out = String::new();
    let mut i: usize = 0;
    assert(t@.skip(0) =~= t@);
    assert(out@ + substituted(t@, sub) =~= substituted(t@, sub));
    while i < n
        invariant
            c@ == t@,
            n == c@.len(),
            i <= n,
            sub == subst.deep_view(),
            out@ + substituted(t@.skip(i as int), sub) == substituted(t@, sub),
        decreases n - i,
    {
        let ghost rest = t@.skip(i as int);
        let ghost before = out@;
        let w: usize = text::span_from(&c, i, CharClass::Ident);
        if w > 0 {
            let name = text::slice(t, i, i + w);
            proof {
                assert(rest.take(w as int) =~= name@);
                assert(rest.skip(w as int) =~= t@.skip(i + w));
            }
            match subst_value(subst, name) {
                Some(v) => {
                    out.append(v);
                },
                None => {
                    out.append(name);
                },
            }
            assert(before + (replacement(sub, name@) + substituted(t@.skip(i + w), sub)) =~= out@
                + substituted(t@.skip(i + w), sub));
            i += w;
        } else {
            proof {
                assert(rest.skip(1) =~= t@.skip(i + 1));
                assert(rest[0] == c@[i as int]);
            }
            out.push(c[i]);
            assert(before + (seq![rest[0]] + substituted(t@.skip(i + 1), sub)) =~= out@
                + substituted(t@.skip(i + 1), sub));
            i += 1;
        }
    }
    assert(t@.skip(n as int) =~= Seq::empty());
    assert(out@ + substituted(t@.skip(n as int), sub) =~= out@);
    out
}

/// Without type parameters to replace, a type stays as it is.
pub proof fn law_empty_subst_changes_nothing(t: Seq<char>)
    ensures
        substituted(t, Seq::empty()) == t,
    decreases t.len(),
{
    let n = text::span(t, text::ident_class());
    text::lemma_span(t, text::ident_class());
    if t.len() > 0 {
        if n > 0 {
            law_empty_subst_changes_nothing(t.skip(n));
            assert(value_of(Seq::empty(), t.take(n)) is None);
            assert(t.take(n) + t.skip(n) =~= t);
        } else {
            law_empty_subst_changes_nothing(t.skip(1));
            assert(seq![t[0]] + t.skip(1) =~= t);
        }
    } else {
        assert(t =~= Seq::empty());
    }
}

/// A type parameter alone becomes what stands for it.
pub proof fn law_parameter_becomes_its_value(name: Seq<char>, subst: Subst)
    requires
        name.len() > 0,
        forall|i: int| 0 <= i < name.len() ==> text::id_char(#[trigger] name[i]),
    ensures
        substituted(name, subst) == replacement(subst, name),
{
    let p = text::ident_class();
    assert forall|i: int| 0 <= i < name.len() implies p(#[trigger] name[i]) by {
        assert(text::id_char(name[i]));
    }
    text::lemma_span_unique(name, p, name.len() as int);
    assert(name.take(name.len() as int) =~= name);
    assert(name.skip(name.len() as int) =~= Seq::empty());
    assert(substituted(name.skip(name.len() as int), subst) =~= Seq::empty());
    assert(replacement(subst, name) + Seq::<char>::empty() =~= replacement(subst, name));
}

/// Each parameter with the argument given for it.
pub open spec fn zipped(params: Seq<Seq<char>>, args: Seq<Seq<char>>) -> Subst {
    Seq::new(
        if params.len() < args.len() {
            params.len()
        } else {
            args.len()
        },
        |i: int| (params[i], args[i]),
    )
}

/// What a type's arguments put in the place of its class's parameters.
pub open spec fn arg_subst(f: Facts, class_name: Seq<char>, t: Seq<char>) -> Subst {
    zipped((f.class_params)(class_name), type_args(t))
}

/// What a type's arguments put in the place of its class's parameters.
pub fn build_type_arg_subst<D: InferDeps>(deps: &D, class_name: &str, t: &str) -> (r: Vec<
    (String, String),
>)
    requires
        deps.ready(),
    ensures
        r.deep_view() == arg_subst(deps.facts(), class_name@, t@),
{
    let params = deps.find_class_type_params(class_name);
    let args = type_args_of(t);
    let ghost ps = params.deep_view();
    let ghost xs = args.deep_view();
    let mut out: Vec<(String, String)> = Vec::new();
    let mut i: usize = 0;
    while i < params.len() && i < args.len()
        invariant
            i <= params@.len(),
            i <= args@.len(),
            ps == params.deep_view(),
            xs == args.deep_view(),
            out@.len() == i,
            forall|k: int|
                0 <= k < i ==> (#[trigger] out@[k]).deep_view() == (ps[k], xs[k]),
        decreases params@.len() - i,
    {
        assert(ps[i as int] == params@[i as int]@);
        assert(xs[i as int] == args@[i as int]@);
        out.push((params[i].clone(), args[i].to_owned()));
        i += 1;
    }
    assert(out.deep_view() =~= zipped(ps, xs));
    out
}

// ---------------------------------------------------------------------------
// Extension functions
// ---------------------------------------------------------------------------

/// A type without whitespace round it and without the question mark of a nullable one.
pub open spec fn plain_type(t: Seq<char>) -> Seq<char> {
    text::without_suffix_of(text::trimmed(t), text::only('?'))
}

/// What has to stand for the type parameters so that `pattern` becomes `actual`. `fuel` bounds
/// how deep type arguments are compared.
pub open spec fn unified(
    pattern: Seq<char>,
    actual: Seq<char>,
    params: Seq<Seq<char>>,
    fuel: nat,
) -> Subst
    decreases fuel, 0nat,
{
    if params.contains(plain_type(pattern)) {
        seq![(plain_type(pattern), plain_type(actual))]
    } else if fuel == 0 {
        Seq::empty()
    } else {
        let ps = type_args(pattern);
        let xs = type_args(actual);
        unified_args(
            ps,
            xs,
            params,
            if ps.len() < xs.len() {
                ps.len()
            } else {
                xs.len()
            },
            (fuel - 1) as nat,
        )
    }
}

/// What has to stand for the type parameters so that the first `n` patterns become the actual
/// types.
pub open spec fn unified_args(
    ps: Seq<Seq<char>>,
    xs: Seq<Seq<char>>,
    params: Seq<Seq<char>>,
    n: nat,
    fuel: nat,
) -> Subst
    decreases fuel, n + 1,
{
    if n == 0 {
        Seq::empty()
    } else {
        unified_args(ps, xs, params, (n - 1) as nat, fuel) + unified(
            ps[n - 1],
            xs[n - 1],
            params,
            fuel,
        )
    }
}

/// What the receiver of a call puts in the place of an extension function's type parameters.
pub open spec fn ext_subst(
    extension_receiver: Seq<char>,
    actual: Seq<char>,
    params: Seq<Seq<char>>,
) -> Subst {
    unified(extension_receiver, actual, params, extension_receiver.len())
}

fn unify(pattern: &str, actual: &str, params: &Vec<String>, fuel: usize) -> (r: Vec<
    (String, String),
>)
    ensures
        r.deep_view() == unified(pattern@, actual@, params.deep_view(), fuel as nat),
    decreases fuel,
{
    let plain = text::trim_end_class(text::trim(pattern), CharClass::Only('?'));
    let mut out: Vec<(String, String)> = Vec::new();
    if is_declared_type_param(plain, params) {
        let value = text::trim_end_class(text::trim(actual), CharClass::Only('?'));
        out.push((plain.to_owned(), value.to_owned()));
        assert(out.deep_view() =~= seq![(plain@, value@)]);
        return out;
    }
    if fuel == 0 {
        assert(out.deep_view() =~= Seq::empty());
        return out;
    }
    let ps = type_args_of(pattern);
    let xs = type_args_of(actual);
    let ghost p = ps.deep_view();
    let ghost x = xs.deep_view();
    let ghost all = params.deep_view();
    let mut i: usize = 0;
    assert(out.deep_view() =~= unified_args(p, x, all, 0, (fuel - 1) as nat));
    while i < ps.len() && i < xs.len()
        invariant
            fuel > 0,
            i <= ps@.len(),
            i <= xs@.len(),
            p == ps.deep_view(),
            x == xs.deep_view(),
            all == params.deep_view(),
            out.deep_view() == unified_args(p, x, all, i as nat, (fuel - 1) as nat),
        decreases ps@.len() - i,
    {
        assert(p[i as int] == ps@[i as int]@);
        assert(x[i as int] == xs@[i as int]@);
        let ghost before = out.deep_view();
        let mut found = unify(ps[i], xs[i], params, fuel - 1);
        let ghost more = found.deep_view();
        out.append(&mut found);
        assert(out.deep_view() =~= before + more);
        i += 1;
    }
    out
}

/// What the receiver of a call puts in the place of an extension function's type parameters.
pub fn build_ext_fn_type_subst(
    extension_receiver: &str,
    actual: &str,
    type_params: &Vec<String>,
) -> (r: Vec<(String, String)>)
    ensures
        r.deep_view() == ext_subst(extension_receiver@, actual@, type_params.deep_view()),
{
    let fuel: usize = extension_receiver.unicode_len();
    unify(extension_receiver, actual, type_params, fuel)
}

/// The brace that opens the block which ends before `n`; `d` blocks to the right are still to
/// be opened.
pub open spec fn brace_before(s: Seq<char>, n: int, d: nat) -> Option<int>
    decreases n,
{
    if n <= 0 {
        None
    } else if s[n - 1] == '}' {
        brace_before(s, n - 1, d + 1)
    } else if s[n - 1] == '{' {
        if d == 0 {
            Some(n - 1)
        } else {
            brace_before(s, n - 1, (d - 1) as nat)
        }
    } else {
        brace_before(s, n - 1, d)
    }
}

fn open_brace(s: &str, n: usize) -> (r: Option<usize>)
    requires
        n <= s@.len(),
    ensures
        match r {
            Some(i) => brace_before(s@, n as int, 0) == Some(i as int) && i < n,
            None => brace_before(s@, n as int, 0) is None,
        },
{
    let c = text::chars_of(s);
    let mut d: usize = 0;
    let mut i: usize = n;
    while i > 0
        invariant
            c@ == s@,
            i <= n <= s@.len(),
            d <= n - i,
            brace_before(s@, n as int, 0) == brace_before(s@, i as int, d as nat),
        decreases i,
    {
        i -= 1;
        if c[i] == '}' {
            d += 1;
        } else if c[i] == '{' {
            if d == 0 {
                return Some(i);
            }
            d -= 1;
        }
    }
    None
}

/// A call without the lambda that ends it.
pub open spec fn without_lambda(s: Seq<char>) -> Seq<char> {
    let t = text::trimmed_end(s);
    if t.len() > 0 && t.last() == '}' {
        match brace_before(t, t.len() - 1, 0) {
            Some(i) => text::trimmed_end(t.take(i)),
            None => t,
        }
    } else {
        t
    }
}

fn strip_trailing_lambda<'a>(s: &'a str) -> (r: &'a str)
    ensures
        r@ == without_lambda(s@),
{
    let t = text::trim_end(s);
    let n: usize = t.unicode_len();
    if n > 0 && t.get_char(n - 1) == '}' {
        match open_brace(t, n - 1) {
            Some(i) => text::trim_end(text::take(t, i)),
            None => t,
        }
    } else {
        t
    }
}

/// A name with its first letter in upper case.
pub open spec fn capital(s: Seq<char>) -> Seq<char> {
    if s.len() == 0 {
        s
    } else {
        unicode::upper_mapping(s[0]) + s.skip(1)
    }
}

fn capitalize(s: &str) -> (r: String)
    ensures
        r@ == capital(s@),
{
    if s.is_empty() {
        return s.to_owned();
    }
    let head = unicode::to_upper(s.get_char(0));
    let n: usize = head.len();
    let mut out = text::string_of(&head, 0, n);
    assert(head@.subrange(0, n as int) =~= head@);
    out.append(text::skip(s, 1));
    out
}

/// The class of a variable: that of its type, else the one named like it.
pub open spec fn var_class(f: Facts, name: Seq<char>, uri: Seq<char>) -> Seq<char> {
    match (f.var_type)(name, uri) {
        Some(t) => class_base(t),
        None => capital(name),
    }
}

fn class_of_var<D: InferDeps>(deps: &D, name: &str, uri: &str) -> (r: String)
    requires
        deps.ready(),
    ensures
        r@ == var_class(deps.facts(), name@, uri@),
{
    match deps.find_var_type(name, uri) {
        Some(t) => text::last_segment(text::dotted_ident_prefix(t.as_str())).to_owned(),
        None => capitalize(name),
    }
}

/// The type of the expression that a call ends with: that of a method call by the class of its
/// receiver, that of a plain name by the variable or function so named.
pub open spec fn call_type(f: Facts, expr: Seq<char>, uri: Seq<char>) -> Option<Seq<char>> {
    let callee = text::trimmed_end(sig::without_args(without_lambda(expr)));
    let name = text::last_ident_of(callee);
    match brackets::top_dot(callee) {
        Some(dot) => {
            let receiver = text::last_ident_of(
                text::trimmed_end(sig::without_args(text::trimmed_end(callee.take(dot)))),
            );
            (f.method_return)(var_class(f, receiver, uri), name)
        },
        None => match (f.var_type)(name, uri) {
            Some(t) => Some(t),
            None => (f.fun_return)(name),
        },
    }
}

fn type_of_call<D: InferDeps>(deps: &D, expr: &str, uri: &str) -> (r: Option<String>)
    requires
        deps.ready(),
    ensures
        r.deep_view() == call_type(deps.facts(), expr@, uri@),
{
    let callee = text::trim_end(sig::strip_trailing_call_args(strip_trailing_lambda(expr)));
    let name = text::last_ident_in(callee);
    match brackets::find_top_dot(callee) {
        Some(dot) => {
            let head = text::trim_end(text::take(callee, dot));
            let receiver = text::last_ident_in(
                text::trim_end(sig::strip_trailing_call_args(head)),
            );
            let class = class_of_var(deps, receiver, uri);
            deps.find_method_return_type_for_type(class.as_str(), name)
        },
        None => match deps.find_var_type(name, uri) {
            Some(t) => Some(t),
            None => deps.find_fun_return_type(name),
        },
    }
}

/// What stands for a type parameter of an extension function at a call that reads
/// `before_open`: it is taken from the type of what the function is called on.
pub open spec fn call_site_type(
    f: Facts,
    name: Seq<char>,
    fn_name: Seq<char>,
    before_open: Seq<char>,
    uri: Seq<char>,
) -> Option<Seq<char>> {
    match (f.callable)(fn_name, uri) {
        Some(c) => if !c.type_params.contains(name) || c.extension_receiver_type.len() == 0 {
            None
        } else {
            match text::rindex_of(before_open, '.') {
                Some(dot) => match call_type(f, before_open.take(dot), uri) {
                    Some(t) => value_of(ext_subst(c.extension_receiver_type, t, c.type_params), name),
                    None => None,
                },
                None => None,
            }
        },
        None => None,
    }
}

/// What stands for a type parameter of an extension function at a call.
pub fn try_substitute_ext_fn_type_param<D: InferDeps>(
    name: &str,
    fn_name: &str,
    before_open: &str,
    deps: &D,
    uri: &str,
) -> (r: Option<String>)
    requires
        deps.ready(),
    ensures
        r.deep_view() == call_site_type(deps.facts(), name@, fn_name@, before_open@, uri@),
{
    let info = match deps.find_fun_callable_info(fn_name, uri) {
        Some(info) => info,
        None => {
            return None;
        },
    };
    if !is_declared_type_param(name, &info.type_params)
        || info.extension_receiver_type.as_str().is_empty() {
        return None;
    }
    let dot: usize = match text::rfind_char(before_open, '.') {
        Some(dot) => dot,
        None => {
            return None;
        },
    };
    match type_of_call(deps, text::take(before_open, dot), uri) {
        Some(t) => {
            let subst = build_ext_fn_type_subst(
                info.extension_receiver_type.as_str(),
                t.as_str(),
                &info.type_params,
            );
            match subst_value(&subst, name) {
                Some(v) => Some(v.to_owned()),
                None => None,
            }
        },
        None => None,
    }
}

// ---------------------------------------------------------------------------
// Members
// ---------------------------------------------------------------------------

/// The last dot outside all brackets, as a count of the bytes before it.
pub fn find_last_dot_at_depth_zero(s: &str) -> (r: Option<usize>)
    ensures
        match r {
            Some(b) => top_dot_is_some_at(s@, b as int),
            None => brackets::top_dot(s@) is None,
        },
{
    match brackets::find_top_dot(s) {
        Some(i) => Some(columns::byte_offset(s, i)),
        None => None,
    }
}

/// Whether the last dot outside all brackets stands after `bytes` bytes.
pub open spec fn top_dot_is_some_at(s: Seq<char>, bytes: int) -> bool {
    match brackets::top_dot(s) {
        Some(i) => bytes == columns::byte_len(s.take(i)),
        None => false,
    }
}

/// The type of a member as its declaration gives it, with the receiver's type arguments put
/// in; the first of these where it stays a type parameter.
pub open spec fn settled(f: Facts, raw: Seq<char>, receiver: Seq<char>) -> Option<Seq<char>> {
    let class = class_base(receiver);
    let t = substituted(raw, arg_subst(f, class, receiver));
    let base = plain_type(t);
    if generic_param(base) {
        first_concrete_arg(receiver)
    } else {
        Some(base)
    }
}

/// The type of a member of a value: that of a field, else what a method returns.
pub open spec fn member_type(
    f: Facts,
    receiver: Seq<char>,
    member: Seq<char>,
    uri: Seq<char>,
) -> Option<Seq<char>> {
    let class = class_base(receiver);
    match (f.field_type)(class, member, uri) {
        Some(raw) => settled(f, raw, receiver),
        None => match (f.method_return)(class, member) {
            Some(raw) => settled(f, raw, receiver),
            None => None,
        },
    }
}

fn settle<D: InferDeps>(deps: &D, raw: &str, receiver: &str) -> (r: Option<String>)
    requires
        deps.ready(),
    ensures
        r.deep_view() == settled(deps.facts(), raw@, receiver@),
{
    let class = text::last_segment(text::dotted_ident_prefix(receiver));
    let subst = build_type_arg_subst(deps, class, receiver);
    let t = apply_type_subst(raw, &subst);
    let base = text::trim_end_class(text::trim(t.as_str()), CharClass::Only('?'));
    if is_generic_param(base) {
        first_concrete_type_arg_str(receiver)
    } else {
        Some(base.to_owned())
    }
}

/// The type of a member of a value: that of a field, else what a method returns.
pub fn resolve_member_type_on<D: InferDeps>(
    receiver: &str,
    member: &str,
    deps: &D,
    uri: &str,
) -> (r: Option<String>)
    requires
        deps.ready(),
    ensures
        r.deep_view() == member_type(deps.facts(), receiver@, member@, uri@),
{
    let class = text::last_segment(text::dotted_ident_prefix(receiver));
    match deps.find_field_type_from(class, member, uri) {
        Some(raw) => settle(deps, raw.as_str(), receiver),
        None => match deps.find_method_return_type_for_type(class, member) {
            Some(raw) => settle(deps, raw.as_str(), receiver),
            None => None,
        },
    }
}

} // verus!
