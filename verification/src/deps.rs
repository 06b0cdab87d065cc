//! What the inference of types asks of the symbols it works on.
use vstd::prelude::*;
use vstd::string::*;

use crate::lists;
use crate::text;
use crate::types::{Position, Replicate};

verus! {

/// What is known of a callable: the type parameters it declares and the type it extends.
#[derive(Debug)]
pub struct CallableInfo {
    pub type_params: Vec<String>,
    pub extension_receiver_type: String,
}

#[verifier::ext_equal]
pub struct CallableView {
    pub type_params: Seq<Seq<char>>,
    pub extension_receiver_type: Seq<char>,
}

impl DeepView for CallableInfo {
    type V = CallableView;

    open spec fn deep_view(&self) -> CallableView {
        CallableView {
            type_params: self.type_params.deep_view(),
            extension_receiver_type: self.extension_receiver_type@,
        }
    }
}

impl Replicate for CallableInfo {
    fn replicate(&self) -> (r: Self) {
        CallableInfo {
            type_params: self.type_params.replicate(),
            extension_receiver_type: self.extension_receiver_type.clone(),
        }
    }
}

/// Everything that can be asked.
pub struct Facts {
    /// Type of a variable, by its name and the file's URI.
    pub var_type: spec_fn(Seq<char>, Seq<char>) -> Option<Seq<char>>,
    /// Type of a variable as it is visible at a position of the file.
    pub var_type_at: spec_fn(Seq<char>, Seq<char>, Position) -> Option<Seq<char>>,
    /// Type of a field, by its class, its name and the file's URI.
    pub field_type: spec_fn(Seq<char>, Seq<char>, Seq<char>) -> Option<Seq<char>>,
    /// Type that a function returns.
    pub fun_return: spec_fn(Seq<char>) -> Option<Seq<char>>,
    /// Type that a method of a class returns.
    pub method_return: spec_fn(Seq<char>, Seq<char>) -> Option<Seq<char>>,
    /// Parameter list of a function, by its name and the file's URI.
    pub fun_params: spec_fn(Seq<char>, Seq<char>) -> Option<Seq<char>>,
    /// Parameter list of a method of a class.
    pub method_params: spec_fn(Seq<char>, Seq<char>) -> Option<Seq<char>>,
    /// Type parameters that a class declares.
    pub class_params: spec_fn(Seq<char>) -> Seq<Seq<char>>,
    /// What is known of a callable, by its name and the file's URI.
    pub callable: spec_fn(Seq<char>, Seq<char>) -> Option<CallableView>,
    /// URI of the file that declares a symbol, by its name and the asking file's URI.
    pub symbol_file: spec_fn(Seq<char>, Seq<char>) -> Option<Seq<char>>,
    /// Parameter lists of the functions and constructors of a name in a file.
    pub params_in_file: spec_fn(Seq<char>, Seq<char>) -> Seq<Seq<char>>,
}

/// Where the inference of types looks symbols up.
pub trait InferDeps {
    /// Everything that can be asked.
    spec fn facts(&self) -> Facts;

    /// The tables that answer are in order.
    spec fn ready(&self) -> bool;

    fn find_var_type(&self, name: &str, uri: &str) -> (r: Option<String>)
        requires
            self.ready(),
        ensures
            r.deep_view() == (self.facts().var_type)(name@, uri@),
    ;

    fn find_var_type_at(&self, name: &str, uri: &str, position: Position) -> (r: Option<String>)
        requires
            self.ready(),
        ensures
            r.deep_view() == (self.facts().var_type_at)(name@, uri@, position),
    ;

    fn find_field_type_from(&self, class_name: &str, field: &str, uri: &str) -> (r: Option<String>)
        requires
            self.ready(),
        ensures
            r.deep_view() == (self.facts().field_type)(class_name@, field@, uri@),
    ;

    fn find_fun_return_type(&self, name: &str) -> (r: Option<String>)
        requires
            self.ready(),
        ensures
            r.deep_view() == (self.facts().fun_return)(name@),
    ;

    fn find_method_return_type_for_type(&self, class_name: &str, method: &str) -> (r: Option<
        String,
    >)
        requires
            self.ready(),
        ensures
            r.deep_view() == (self.facts().method_return)(class_name@, method@),
    ;

    fn find_fun_params_text(&self, name: &str, uri: &str) -> (r: Option<String>)
        requires
            self.ready(),
        ensures
            r.deep_view() == (self.facts().fun_params)(name@, uri@),
    ;

    fn find_method_params_text(&self, class_name: &str, method: &str) -> (r: Option<String>)
        requires
            self.ready(),
        ensures
            r.deep_view() == (self.facts().method_params)(class_name@, method@),
    ;

    fn find_class_type_params(&self, class_name: &str) -> (r: Vec<String>)
        requires
            self.ready(),
        ensures
            r.deep_view() == (self.facts().class_params)(class_name@),
    ;

    fn find_fun_callable_info(&self, name: &str, uri: &str) -> (r: Option<CallableInfo>)
        requires
            self.ready(),
        ensures
            r.deep_view() == (self.facts().callable)(name@, uri@),
    ;

    fn find_symbol_file(&self, name: &str, uri: &str) -> (r: Option<String>)
        requires
            self.ready(),
        ensures
            r.deep_view() == (self.facts().symbol_file)(name@, uri@),
    ;

    fn collect_all_fun_params_texts(&self, name: &str, file_uri: &str) -> (r: Vec<String>)
        requires
            self.ready(),
        ensures
            r.deep_view() == (self.facts().params_in_file)(name@, file_uri@),
    ;
}

// ---------------------------------------------------------------------------
// Facts given one by one
// ---------------------------------------------------------------------------

/// A fact: what is known of `subject`, which belongs to `scope`.
pub struct Fact<T> {
    pub scope: String,
    pub subject: String,
    pub known: T,
}

#[verifier::ext_equal]
pub struct FactView<T> {
    pub scope: Seq<char>,
    pub subject: Seq<char>,
    pub known: T,
}

impl<T: DeepView> DeepView for Fact<T> {
    type V = FactView<T::V>;

    open spec fn deep_view(&self) -> FactView<T::V> {
        FactView {
            scope: self.scope@,
            subject: self.subject@,
            known: self.known.deep_view(),
        }
    }
}

/// Whether a fact is about the subject.
pub open spec fn about<T>(scope: Seq<char>, subject: Seq<char>) -> spec_fn(FactView<T>) -> bool {
    |f: FactView<T>| f.scope == scope && f.subject == subject
}

/// What the first fact about the subject says.
pub open spec fn known<T>(facts: Seq<FactView<T>>, scope: Seq<char>, subject: Seq<char>) -> Option<
    T,
> {
    match lists::find_where(facts, about(scope, subject)) {
        Some(f) => Some(f.known),
        None => None,
    }
}

fn look_up<T: Replicate>(facts: &Vec<Fact<T>>, scope: &str, subject: &str) -> (r: Option<T>)
    ensures
        r.deep_view() == known(facts.deep_view(), scope@, subject@),
{
    let ghost all = facts.deep_view();
    let ghost p = about::<T::V>(scope@, subject@);
    let mut i: usize = 0;
    while i < facts.len()
        invariant
            i <= facts@.len(),
            all == facts.deep_view(),
            p == about::<T::V>(scope@, subject@),
            forall|k: int| 0 <= k < i ==> !p(#[trigger] all[k]),
        decreases facts@.len() - i,
    {
        assert(all[i as int] == facts@[i as int].deep_view());
        if text::same(facts[i].scope.as_str(), scope) && text::same(
            facts[i].subject.as_str(),
            subject,
        ) {
            proof {
                lists::lemma_first(all, p, i as int);
            }
            return Some(facts[i].known.replicate());
        }
        i += 1;
    }
    proof {
        lists::lemma_no_first(all, p);
    }
    None
}

/// Facts that were given one by one.
pub struct FixedDeps {
    pub vars: Vec<Fact<String>>,
    pub funs: Vec<Fact<String>>,
    pub fields: Vec<Fact<String>>,
    pub results: Vec<Fact<String>>,
    pub method_returns: Vec<Fact<String>>,
    pub method_params: Vec<Fact<String>>,
    pub class_params: Vec<Fact<Vec<String>>>,
    pub callables: Vec<Fact<CallableInfo>>,
}

impl InferDeps for FixedDeps {
    open spec fn facts(&self) -> Facts {
        Facts {
            var_type: |n: Seq<char>, u: Seq<char>| known(self.vars.deep_view(), u, n),
            var_type_at: |n: Seq<char>, u: Seq<char>, p: Position| None,
            field_type: |c: Seq<char>, f: Seq<char>, u: Seq<char>|
                known(self.fields.deep_view(), c, f),
            fun_return: |n: Seq<char>| known(self.results.deep_view(), Seq::empty(), n),
            method_return: |c: Seq<char>, m: Seq<char>| known(self.method_returns.deep_view(), c, m),
            fun_params: |n: Seq<char>, u: Seq<char>| known(self.funs.deep_view(), u, n),
            method_params: |c: Seq<char>, m: Seq<char>| known(self.method_params.deep_view(), c, m),
            class_params: |c: Seq<char>|
                match known(self.class_params.deep_view(), Seq::empty(), c) {
                    Some(p) => p,
                    None => Seq::empty(),
                },
            callable: |n: Seq<char>, u: Seq<char>|
                known(self.callables.deep_view(), Seq::empty(), n),
            symbol_file: |n: Seq<char>, u: Seq<char>| None,
            params_in_file: |n: Seq<char>, u: Seq<char>| Seq::empty(),
        }
    }

    open spec fn ready(&self) -> bool {
        true
    }

    fn find_var_type(&self, name: &str, uri: &str) -> (r: Option<String>) {
        look_up(&self.vars, uri, name)
    }

    fn find_var_type_at(&self, name: &str, uri: &str, position: Position) -> (r: Option<String>) {
        None
    }

    fn find_field_type_from(&self, class_name: &str, field: &str, uri: &str) -> (r: Option<
        String,
    >) {
        look_up(&self.fields, class_name, field)
    }

    fn find_fun_return_type(&self, name: &str) -> (r: Option<String>) {
        no_scope();
        look_up(&self.results, "", name)
    }

    fn find_method_return_type_for_type(&self, class_name: &str, method: &str) -> (r: Option<
        String,
    >) {
        look_up(&self.method_returns, class_name, method)
    }

    fn find_fun_params_text(&self, name: &str, uri: &str) -> (r: Option<String>) {
        look_up(&self.funs, uri, name)
    }

    fn find_method_params_text(&self, class_name: &str, method: &str) -> (r: Option<String>) {
        look_up(&self.method_params, class_name, method)
    }

    fn find_class_type_params(&self, class_name: &str) -> (r: Vec<String>) {
        no_scope();
        match look_up(&self.class_params, "", class_name) {
            Some(p) => p,
            None => {
                let none: Vec<String> = Vec::new();
                assert(none.deep_view() =~= Seq::<Seq<char>>::empty());
                none
            },
        }
    }

    fn find_fun_callable_info(&self, name: &str, uri: &str) -> (r: Option<CallableInfo>) {
        no_scope();
        look_up(&self.callables, "", name)
    }

    fn find_symbol_file(&self, name: &str, uri: &str) -> (r: Option<String>) {
        None
    }

    fn collect_all_fun_params_texts(&self, name: &str, file_uri: &str) -> (r: Vec<String>) {
        let none: Vec<String> = Vec::new();
        assert(none.deep_view() =~= Seq::<Seq<char>>::empty());
        none
    }
}

/// The empty text, the scope of what belongs to none.
fn no_scope()
    ensures
        ""@ == Seq::<char>::empty(),
{
    proof {
        reveal_strlit("");
        assert(""@ =~= Seq::<char>::empty());
    }
}

/// Facts with one more at the end.
pub open spec fn with_fact<T>(
    facts: Seq<FactView<T>>,
    scope: Seq<char>,
    subject: Seq<char>,
    known: T,
) -> Seq<FactView<T>> {
    facts.push(FactView { scope, subject, known })
}

fn add_fact<T: DeepView>(facts: &mut Vec<Fact<T>>, scope: &str, subject: &str, known: T)
    ensures
        final(facts).deep_view() == with_fact(
            old(facts).deep_view(),
            scope@,
            subject@,
            known.deep_view(),
        ),
{
    let ghost before = facts.deep_view();
    let ghost k = known.deep_view();
    facts.push(Fact { scope: scope.to_owned(), subject: subject.to_owned(), known });
    assert(facts.deep_view() =~= with_fact(before, scope@, subject@, k));
}

impl FixedDeps {
    /// No facts.
    pub fn new() -> (r: FixedDeps)
        ensures
            r.vars@.len() == 0,
            r.funs@.len() == 0,
            r.fields@.len() == 0,
            r.results@.len() == 0,
            r.method_returns@.len() == 0,
            r.method_params@.len() == 0,
            r.class_params@.len() == 0,
            r.callables@.len() == 0,
    {
        FixedDeps {
            vars: Vec::new(),
            funs: Vec::new(),
            fields: Vec::new(),
            results: Vec::new(),
            method_returns: Vec::new(),
            method_params: Vec::new(),
            class_params: Vec::new(),
            callables: Vec::new(),
        }
    }

    /// The type of a variable of a file.
    pub fn with_var(self, uri: &str, name: &str, var_type: &str) -> (r: FixedDeps)
        ensures
            r.vars.deep_view() == with_fact(self.vars.deep_view(), uri@, name@, var_type@),
            r == (FixedDeps { vars: r.vars, ..self }),
    {
        let mut vars = self.vars;
        add_fact(&mut vars, uri, name, var_type.to_owned());
        FixedDeps { vars, ..self }
    }

    /// The parameter list of a function, as a file sees it.
    pub fn with_fun(self, uri: &str, name: &str, params: &str) -> (r: FixedDeps)
        ensures
            r.funs.deep_view() == with_fact(self.funs.deep_view(), uri@, name@, params@),
            r == (FixedDeps { funs: r.funs, ..self }),
    {
        let mut funs = self.funs;
        add_fact(&mut funs, uri, name, params.to_owned());
        FixedDeps { funs, ..self }
    }

    /// The type of a field of a class.
    pub fn with_field(self, class_name: &str, field: &str, field_type: &str) -> (r: FixedDeps)
        ensures
            r.fields.deep_view() == with_fact(
                self.fields.deep_view(),
                class_name@,
                field@,
                field_type@,
            ),
            r == (FixedDeps { fields: r.fields, ..self }),
    {
        let mut fields = self.fields;
        add_fact(&mut fields, class_name, field, field_type.to_owned());
        FixedDeps { fields, ..self }
    }

    /// The type that a function returns.
    pub fn with_return(self, name: &str, return_type: &str) -> (r: FixedDeps)
        ensures
            r.results.deep_view() == with_fact(
                self.results.deep_view(),
                ""@,
                name@,
                return_type@,
            ),
            r == (FixedDeps { results: r.results, ..self }),
    {
        let mut results = self.results;
        add_fact(&mut results, "", name, return_type.to_owned());
        FixedDeps { results, ..self }
    }

    /// The type that a method of a class returns.
    pub fn with_method_return_for_type(
        self,
        class_name: &str,
        method: &str,
        return_type: &str,
    ) -> (r: FixedDeps)
        ensures
            r.method_returns.deep_view() == with_fact(
                self.method_returns.deep_view(),
                class_name@,
                method@,
                return_type@,
            ),
            r == (FixedDeps { method_returns: r.method_returns, ..self }),
    {
        let mut method_returns = self.method_returns;
        add_fact(&mut method_returns, class_name, method, return_type.to_owned());
        FixedDeps { method_returns, ..self }
    }

    /// The parameter list of a method of a class.
    pub fn with_method_params(self, class_name: &str, method: &str, params: &str) -> (r: FixedDeps)
        ensures
            r.method_params.deep_view() == with_fact(
                self.method_params.deep_view(),
                class_name@,
                method@,
                params@,
            ),
            r == (FixedDeps { method_params: r.method_params, ..self }),
    {
        let mut method_params = self.method_params;
        add_fact(&mut method_params, class_name, method, params.to_owned());
        FixedDeps { method_params, ..self }
    }

    /// The type parameters that a class declares.
    pub fn with_class_params(self, class_name: &str, params: Vec<String>) -> (r: FixedDeps)
        ensures
            r.class_params.deep_view() == with_fact(
                self.class_params.deep_view(),
                ""@,
                class_name@,
                params.deep_view(),
            ),
            r == (FixedDeps { class_params: r.class_params, ..self }),
    {
        let mut class_params = self.class_params;
        add_fact(&mut class_params, "", class_name, params);
        FixedDeps { class_params, ..self }
    }

    /// The type parameters that a callable declares and the type that it extends.
    pub fn with_callable_info(
        self,
        name: &str,
        type_params: Vec<String>,
        extension_receiver_type: &str,
    ) -> (r: FixedDeps)
        ensures
            r.callables.deep_view() == with_fact(
                self.callables.deep_view(),
                ""@,
                name@,
                CallableView {
                    type_params: type_params.deep_view(),
                    extension_receiver_type: extension_receiver_type@,
                },
            ),
            r == (FixedDeps { callables: r.callables, ..self }),
    {
        let mut callables = self.callables;
        let info = CallableInfo {
            type_params,
            extension_receiver_type: extension_receiver_type.to_owned(),
        };
        add_fact(&mut callables, "", name, info);
        FixedDeps { callables, ..self }
    }
}

} // verus!
