//! What is true of parameter lists and of function types.
use vstd::prelude::*;
use vstd::string::*;

use crate::brackets;
use crate::lambda_types;
use crate::law_texts;
use crate::lists;
use crate::sig;
use crate::text;
use crate::unicode;

verus! {

// ---------------------------------------------------------------------------
// Lists
// ---------------------------------------------------------------------------

/// How many more brackets a text opens than it closes. The tip of an arrow is none.
pub open spec fn level(s: Seq<char>) -> int
    decreases s.len(),
{
    if s.len() == 0 {
        0
    } else {
        let c = s.last();
        level(s.drop_last()) + if c == '(' || c == '[' || c == '{' || c == '<' {
            1int
        } else if c == ')' || c == ']' || c == '}' {
            -1
        } else if c == '>' && !(s.len() > 1 && s[s.len() - 2] == '-') {
            -1
        } else {
            0
        }
    }
}

/// Whether a text closes no bracket that it does not open.
pub open spec fn orderly(s: Seq<char>) -> bool {
    forall|n: int| 0 <= n <= s.len() ==> level(#[trigger] s.take(n)) >= 0
}

/// Whether a text may be an item of a list: it closes what it opens, and its commas stand in
/// brackets.
pub open spec fn is_item(s: Seq<char>) -> bool {
    &&& orderly(s)
    &&& level(s) == 0
    &&& forall|i: int| 0 <= i < s.len() && #[trigger] s[i] == ',' ==> level(s.take(i)) > 0
}

/// Whether each text is an item.
pub open spec fn all_items(items: Seq<Seq<char>>) -> bool {
    forall|i: int| 0 <= i < items.len() ==> is_item(#[trigger] items[i])
}

/// Items with commas between them.
pub open spec fn listed(items: Seq<Seq<char>>) -> Seq<char>
    decreases items.len(),
{
    if items.len() == 0 {
        Seq::empty()
    } else if items.len() == 1 {
        items[0]
    } else {
        listed(items.drop_last()) + seq![','] + items.last()
    }
}

proof fn lemma_level_add(a: Seq<char>, b: Seq<char>)
    requires
        a.len() == 0 || a.last() != '-' || b.len() == 0 || b[0] != '>',
    ensures
        level(a + b) == level(a) + level(b),
    decreases b.len(),
{
    if b.len() == 0 {
        assert(a + b =~= a);
    } else {
        let s = a + b;
        assert(s.drop_last() =~= a + b.drop_last());
        assert(s.last() == b.last());
        lemma_level_add(a, b.drop_last());
        if b.len() > 1 {
            assert(s[s.len() - 2] == b[b.len() - 2]);
        } else if s.len() > 1 {
            assert(s[s.len() - 2] == a.last());
        }
    }
}

proof fn lemma_depth(s: Seq<char>, n: int)
    requires
        0 <= n <= s.len(),
        forall|k: int| 0 <= k <= n ==> level(#[trigger] s.take(k)) >= 0,
    ensures
        brackets::depth(s, true, n) == level(s.take(n)),
    decreases n,
{
    if n > 0 {
        lemma_depth(s, n - 1);
        let t = s.take(n);
        assert(t.drop_last() =~= s.take(n - 1));
        assert(t.last() == s[n - 1]);
        assert(level(s.take(n - 1)) >= 0);
        assert(level(s.take(n)) >= 0);
        if n > 1 {
            assert(t[n - 2] == s[n - 2]);
        }
    }
}

proof fn lemma_depth_prefix(s: Seq<char>, h: Seq<char>, n: int)
    requires
        0 <= n <= h.len() <= s.len(),
        s.take(h.len() as int) == h,
    ensures
        brackets::depth(s, true, n) == brackets::depth(h, true, n),
    decreases n,
{
    if n > 0 {
        lemma_depth_prefix(s, h, n - 1);
        assert(s.take(h.len() as int)[n - 1] == s[n - 1]);
        if n > 1 {
            assert(s.take(h.len() as int)[n - 2] == s[n - 2]);
        }
    }
}

proof fn lemma_splits_prefix(s: Seq<char>, h: Seq<char>, n: int)
    requires
        0 <= n <= h.len() <= s.len(),
        s.take(h.len() as int) == h,
    ensures
        brackets::splits(s, n) == brackets::splits(h, n),
    decreases n,
{
    if n > 0 {
        lemma_splits_prefix(s, h, n - 1);
        lemma_depth_prefix(s, h, n - 1);
        assert(s.take(h.len() as int)[n - 1] == s[n - 1]);
    }
}

/// Past a place outside all brackets an item adds up to one piece.
#[verifier::rlimit(60)]
proof fn lemma_splits_item(s: Seq<char>, at: int, t: Seq<char>, j: int)
    requires
        0 <= at,
        at + t.len() == s.len(),
        s.skip(at) == t,
        at == 0 || s[at - 1] != '-',
        is_item(t),
        0 <= j <= t.len(),
        brackets::depth(s, true, at) == 0,
        brackets::splits(s, at).len() > 0,
        brackets::splits(s, at).last().len() == 0,
    ensures
        brackets::depth(s, true, at + j) == level(t.take(j)),
        brackets::splits(s, at + j) == brackets::splits(s, at).drop_last().push(t.take(j)),
    decreases j,
{
    let base = brackets::splits(s, at);
    if j == 0 {
        assert(t.take(0) =~= Seq::empty());
        assert(base.last() =~= t.take(0));
        assert(base.drop_last().push(base.last()) =~= base);
    } else {
        lemma_splits_item(s, at, t, j - 1);
        let before = t.take(j - 1);
        let now = t.take(j);
        assert(now.drop_last() =~= before);
        assert(s.skip(at)[j - 1] == s[at + j - 1]);
        assert(now.last() == s[at + j - 1]);
        assert(level(t.take(j - 1)) >= 0);
        assert(level(t.take(j)) >= 0);
        if j > 1 {
            assert(s.skip(at)[j - 2] == s[at + j - 2]);
            assert(now[j - 2] == s[at + j - 2]);
        }
        if t[j - 1] == ',' {
            assert(level(t.take(j - 1)) > 0);
        }
        let pieces = brackets::splits(s, at + j - 1);
        assert(pieces.last() == before);
        assert(pieces.drop_last() =~= base.drop_last());
        assert(before.push(s[at + j - 1]) =~= now);
    }
}

#[verifier::rlimit(60)]
pub(crate) proof fn lemma_listed(items: Seq<Seq<char>>)
    requires
        items.len() > 0,
        all_items(items),
    ensures
        orderly(listed(items)),
        level(listed(items)) == 0,
        brackets::split_top(listed(items)) == items,
    decreases items.len(),
{
    let t = items.last();
    assert(is_item(items[items.len() - 1]));
    assert(t.take(t.len() as int) =~= t);
    if items.len() == 1 {
        let s = items[0];
        assert(s.skip(0) =~= s);
        reveal_with_fuel(brackets::splits, 2);
        reveal_with_fuel(brackets::depth, 2);
        assert(brackets::splits(s, 0).last() =~= Seq::empty());
        lemma_splits_item(s, 0, s, s.len() as int);
        assert(brackets::splits(s, 0).drop_last() =~= Seq::empty());
        assert(brackets::split_top(s) =~= items);
    } else {
        let fewer = items.drop_last();
        assert forall|i: int| 0 <= i < fewer.len() implies is_item(#[trigger] fewer[i]) by {
            assert(is_item(items[i]));
        }
        lemma_listed(fewer);
        let h = listed(fewer);
        let m = h.len() as int;
        let s = listed(items);
        let hc = h + seq![','];
        assert(s =~= hc + t);
        assert(s.take(m) =~= h);
        assert(h.take(m) =~= h);
        assert(s[m] == ',');
        lemma_depth(h, m);
        lemma_depth_prefix(s, h, m);
        lemma_splits_prefix(s, h, m);
        let base = brackets::splits(s, m + 1);
        assert(base == brackets::splits(h, m).push(Seq::empty()));
        assert(brackets::depth(s, true, m + 1) == 0);
        assert(s.skip(m + 1) =~= t);
        lemma_splits_item(s, m + 1, t, t.len() as int);
        assert(base.drop_last() =~= fewer);
        assert(fewer.push(t) =~= items);
        assert(hc.drop_last() =~= h);
        assert(level(hc) == 0);
        lemma_level_add(hc, t);
        assert forall|n: int| 0 <= n <= s.len() implies level(#[trigger] s.take(n)) >= 0 by {
            if n <= m {
                assert(s.take(n) =~= h.take(n));
            } else {
                assert(s.take(n) =~= hc + t.take(n - m - 1));
                if n > m + 1 {
                    assert(t.take(n - m - 1)[0] == t[0]);
                }
                lemma_level_add(hc, t.take(n - m - 1));
            }
        }
    }
}

proof fn lemma_filter_all<B>(s: Seq<B>, p: spec_fn(B) -> bool)
    requires
        forall|i: int| 0 <= i < s.len() ==> p(#[trigger] s[i]),
    ensures
        s.filter(p) == s,
    decreases s.len(),
{
    reveal(Seq::filter);
    if s.len() > 0 {
        let c = s.drop_last();
        assert forall|i: int| 0 <= i < c.len() implies p(#[trigger] c[i]) by {
            assert(p(s[i]));
        }
        lemma_filter_all(c, p);
        assert(p(s[s.len() - 1]));
        assert(c.push(s.last()) =~= s);
    } else {
        assert(s.filter(p) =~= s);
    }
}

/// Whether some character of a text is no white space.
pub open spec fn has_ink(s: Seq<char>) -> bool {
    exists|i: int| 0 <= i < s.len() && !unicode::whitespace(#[trigger] s[i])
}

proof fn lemma_has_ink(s: Seq<char>)
    ensures
        (text::trimmed(s).len() > 0) == has_ink(s),
{
    let p = text::space_class();
    text::lemma_span(s, p);
    let t = text::trimmed_start(s);
    text::lemma_rspan(t, p);
    let k = text::span(s, p);
    if has_ink(s) {
        let i = choose|i: int| 0 <= i < s.len() && !unicode::whitespace(#[trigger] s[i]);
        if i < k {
            assert(p(s[i]));
        }
        assert(t[i - k] == s[i]);
        if t.len() - text::rspan(t, p) <= i - k {
            assert(p(t[i - k]));
        }
    }
    if text::trimmed(s).len() > 0 {
        assert(t.len() > 0);
        assert(s[k] == t[0]);
        assert(!p(s[k]));
        assert(!unicode::whitespace(s[k]));
    }
}

/// A list of parameters is parted at the commas between them: not at those in brackets of their
/// types or default values.
pub proof fn law_lists_are_parted(items: Seq<Seq<char>>)
    requires
        items.len() > 0,
        all_items(items),
        forall|i: int| 0 <= i < items.len() ==> has_ink(#[trigger] items[i]),
    ensures
        sig::params_in(listed(items)) == items,
        sig::last_type(listed(items)) == sig::param_type(items.last()),
        forall|n: int|
            0 <= n < items.len() ==> sig::nth_type(listed(items), n) == sig::param_type(
                #[trigger] items[n],
            ),
        forall|n: int|
            n >= items.len() ==> #[trigger] sig::nth_type(listed(items), n) == sig::param_type(
                items.last(),
            ),
{
    lemma_listed(items);
    let p = sig::not_blank();
    assert forall|i: int| 0 <= i < items.len() implies p(#[trigger] items[i]) by {
        assert(has_ink(items[i]));
        lemma_has_ink(items[i]);
    }
    lemma_filter_all(items, p);
}

/// A list that holds nothing has no parameters.
pub proof fn law_empty_lists(s: Seq<char>)
    requires
        law_texts::blank(s),
    ensures
        sig::params_in(s).len() == 0,
        sig::last_type(s) is None,
        forall|n: int| #[trigger] sig::nth_type(s, n) is None,
{
    assert forall|n: int| 0 <= n <= s.len() implies level(#[trigger] s.take(n)) == 0 by {
        lemma_flat(s.take(n));
    }
    assert(s.take(s.len() as int) =~= s);
    let items = seq![s];
    assert(is_item(items[0])) by {
        assert forall|i: int| 0 <= i < s.len() implies #[trigger] s[i] != ',' by {
            assert(unicode::whitespace(s[i]));
        }
    }
    lemma_listed(items);
    assert(!has_ink(s));
    lemma_has_ink(s);
    reveal(Seq::filter);
    reveal_with_fuel(Seq::filter, 2);
    let p = sig::not_blank();
    assert(!p(s));
    assert(items.drop_last() =~= Seq::empty());
    assert(items.last() == s);
    assert(Seq::<Seq<char>>::empty().filter(p) =~= Seq::empty());
    assert(items.filter(p) =~= Seq::empty());
}

/// A text without brackets opens none.
pub(crate) proof fn lemma_flat(s: Seq<char>)
    requires
        forall|i: int|
            0 <= i < s.len() ==> !brackets::opens(#[trigger] s[i], true) && s[i] != ')' && s[i] != ']'
                && s[i] != '}' && s[i] != '>',
    ensures
        level(s) == 0,
    decreases s.len(),
{
    if s.len() > 0 {
        let t = s.drop_last();
        assert forall|i: int| 0 <= i < t.len() implies !brackets::opens(#[trigger] t[i], true)
            && t[i] != ')' && t[i] != ']' && t[i] != '}' && t[i] != '>' by {
            assert(t[i] == s[i]);
        }
        lemma_flat(t);
        assert(s[s.len() - 1] == s.last());
    }
}

// ---------------------------------------------------------------------------
// Parameters
// ---------------------------------------------------------------------------

/// A parameter as it is written: what stands before its name, the name, the type, and perhaps a
/// default value, with white space between them.
pub open spec fn written(
    before: Seq<char>,
    name: Seq<char>,
    gap: Seq<char>,
    typed: Seq<char>,
    after: Seq<char>,
) -> Seq<char> {
    before + name + seq![':'] + gap + typed + after
}

/// Whether what stands behind the type of a parameter is white space and perhaps a default value.
pub open spec fn is_rest(after: Seq<char>) -> bool {
    exists|g: Seq<char>, d: Seq<char>|
        law_texts::blank(g) && after == #[trigger] (g + d) && (d.len() == 0 || d[0] == '=')
}

/// The type and the name of a parameter are read as they are written, whatever modifiers, white
/// space and default value stand round them.
#[verifier::rlimit(60)]
pub proof fn law_parameter_is_read(
    before: Seq<char>,
    name: Seq<char>,
    gap: Seq<char>,
    typed: Seq<char>,
    after: Seq<char>,
)
    requires
        law_texts::lacks(before, ':'),
        before.len() > 0 ==> !text::id_char(before.last()),
        law_texts::is_name(name),
        law_texts::blank(gap),
        law_texts::lacks(gap, '='),
        typed.len() > 0,
        law_texts::tight(typed),
        law_texts::lacks(typed, '='),
        is_rest(after),
    ensures
        sig::param_type(written(before, name, gap, typed, after)) == Some(typed),
        sig::param_name(written(before, name, gap, typed, after)) == Some(name),
{
    let w = written(before, name, gap, typed, after);
    law_texts::lemma_name_is_tight(name);
    let head = before + name;
    assert(law_texts::lacks(head, ':')) by {
        assert forall|i: int| 0 <= i < head.len() implies #[trigger] head[i] != ':' by {
            if i < before.len() {
                assert(before[i] != ':');
            } else {
                assert(name[i - before.len()] != ':');
            }
        }
    }
    let tail = gap + typed + after;
    assert(w =~= head + seq![':'] + tail);
    law_texts::law_character_is_found(head, ':', tail);
    let i = head.len() as int;
    assert(w.take(i) =~= head);
    assert(head.last() == name.last());
    assert(!unicode::whitespace(name.last()));
    law_texts::lemma_end_blank(head, Seq::empty());
    assert(head + Seq::<char>::empty() =~= head);
    law_texts::law_names_at_the_ends(name, before);
    assert(w.skip(i + 1) =~= tail);
    let (g, d) = choose|g: Seq<char>, d: Seq<char>|
        law_texts::blank(g) && after == #[trigger] (g + d) && (d.len() == 0 || d[0] == '=');
    let body = gap + typed + g;
    assert(tail =~= body + d);
    assert forall|k: int| 0 <= k < body.len() implies #[trigger] body[k] != '=' by {
        if k < gap.len() {
            assert(gap[k] != '=');
        } else if k < gap.len() + typed.len() {
            assert(typed[k - gap.len()] != '=');
        } else {
            assert(unicode::whitespace(g[k - gap.len() - typed.len()]));
        }
    }
    let p = text::all_but('=');
    assert forall|k: int| 0 <= k < body.len() implies p(#[trigger] tail[k]) by {
        assert(body[k] != '=');
    }
    if d.len() > 0 {
        assert(tail[body.len() as int] == d[0]);
    }
    text::lemma_span_unique(tail, p, body.len() as int);
    assert(tail.take(body.len() as int) =~= body);
    law_texts::law_trimming(gap, typed, g);
}

/// The type of the parameter that bears a name is found, the first of two of one name.
pub proof fn law_parameter_is_found_by_name(items: Seq<Seq<char>>, name: Seq<char>, k: int)
    requires
        all_items(items),
        forall|i: int| 0 <= i < items.len() ==> has_ink(#[trigger] items[i]),
        0 <= k < items.len(),
        sig::param_name(items[k]) == Some(name),
        forall|i: int| 0 <= i < k ==> sig::param_name(#[trigger] items[i]) != Some(name),
    ensures
        sig::named_type(listed(items), name) == sig::param_type(items[k]),
{
    law_lists_are_parted(items);
    let p = sig::param_named(name);
    assert forall|i: int| 0 <= i < k implies !p(#[trigger] items[i]) by {}
    lists::lemma_first(items, p, k);
}

// ---------------------------------------------------------------------------
// Function types
// ---------------------------------------------------------------------------

/// A function type as it is written: the receiver's type and a dot, or nothing; the inputs; an
/// arrow; the result.
pub open spec fn arrow(
    receiver: Seq<char>,
    inputs: Seq<char>,
    gap: Seq<char>,
    result: Seq<char>,
) -> Seq<char> {
    (if receiver.len() > 0 {
        receiver + seq!['.']
    } else {
        receiver
    }) + seq!['('] + inputs + seq![')'] + gap + "->"@ + result
}

/// Whether the pieces make a function type: what takes the receiver is a name, and the inputs are
/// no function types themselves.
pub open spec fn is_arrow(receiver: Seq<char>, inputs: Seq<char>, gap: Seq<char>) -> bool {
    &&& receiver.len() > 0 ==> law_texts::is_name(receiver)
    &&& law_texts::lacks(inputs, '(')
    &&& law_texts::lacks(inputs, ')')
    &&& law_texts::blank(gap)
}

proof fn lemma_close(t: Seq<char>, i: int, j: int)
    requires
        0 <= i <= j < t.len(),
        t[j] == ')',
        forall|k: int| i <= k < j ==> #[trigger] t[k] != '(' && t[k] != ')',
    ensures
        brackets::close_after(t, i, 0) == Some(j),
    decreases j - i,
{
    if i < j {
        assert(t[i] != '(' && t[i] != ')');
        lemma_close(t, i + 1, j);
    }
}

/// The pieces of a function type are read as they are written.
#[verifier::rlimit(60)]
proof fn lemma_plain_arrow(
    receiver: Seq<char>,
    inputs: Seq<char>,
    gap: Seq<char>,
    result: Seq<char>,
)
    requires
        is_arrow(receiver, inputs, gap),
    ensures
        lambda_types::fun_type(arrow(receiver, inputs, gap, result)) == Some(
            (lambda_types::FunTypeView { receiver, inputs }),
        ),
        lambda_types::not_suspended(arrow(receiver, inputs, gap, result)) == text::trimmed(
            arrow(receiver, inputs, gap, result),
        ),
        lambda_types::not_suspended(
            lambda_types::not_enclosed(text::trimmed(arrow(receiver, inputs, gap, result))),
        ) == text::trimmed(arrow(receiver, inputs, gap, result)),
{
    let whole = arrow(receiver, inputs, gap, result);
    reveal_strlit("->");
    reveal_strlit("suspend ");
    let r = if receiver.len() > 0 {
        receiver + seq!['.']
    } else {
        receiver
    };
    let n = r.len() as int;
    let m = n + 1 + inputs.len();
    let e = m + 1 + gap.len();
    if receiver.len() > 0 {
        law_texts::lemma_name_is_tight(receiver);
    }
    assert(whole[n] == '(');
    assert(whole[m] == ')');
    assert(whole[e] == '-');
    assert(whole[e + 1] == '>');
    assert(whole[0] == (if receiver.len() > 0 {
        receiver[0]
    } else {
        '('
    }));
    law_texts::lemma_trim_keeps(whole, e + 1);
    let t = text::trimmed(whole);
    assert(t =~= whole.take(t.len() as int));
    if text::starts_with(t, "suspend "@) {
        assert(t.take(8)[7] == ' ');
        assert(whole[7] == ' ');
        assert(whole.take(8) =~= "suspend "@);
        if receiver.len() > 0 {
            if 7 < receiver.len() {
                assert(receiver[7] != ' ');
            } else {
                assert forall|k: int| 0 <= k < 8 implies whole[k] == "suspend "@[k] by {
                    assert(whole.take(8)[k] == whole[k]);
                }
                assert(whole[receiver.len() as int] == '.');
            }
        } else {
            assert(whole.take(8)[0] == whole[0]);
        }
    }
    assert(lambda_types::not_suspended(whole) == t);
    assert forall|k: int| n + 1 <= k < m implies #[trigger] t[k] != '(' && t[k] != ')' by {
        assert(t[k] == inputs[k - n - 1]);
        assert(inputs[k - n - 1] != '(' && inputs[k - n - 1] != ')');
    }
    lemma_close(t, n + 1, m);
    if receiver.len() == 0 {
        assert(t[0] == '(');
        assert(brackets::close_after(t, 1, 0) == Some(m));
        assert(m < e < t.len() - 1);
        if m == t.len() - 2 {
            assert(false);
        }
    } else {
        assert(t[0] == receiver[0]);
        assert(receiver[0] != '(');
    }
    assert(lambda_types::not_enclosed(t) == t);
    lemma_trim_twice(whole, t);
    assert(lambda_types::not_suspended(t) == t);
    let p = text::all_but('(');
    assert forall|k: int| 0 <= k < n implies p(#[trigger] t[k]) by {
        if k < receiver.len() {
            assert(receiver[k] != '(');
        }
    }
    text::lemma_span_unique(t, p, n);
    assert(text::index_of(t, '(') == Some(n));
    let rest = t.skip(m + 1);
    let tip = rest.skip(gap.len() as int);
    assert(rest =~= gap + tip);
    assert(tip[0] == '-');
    assert(tip[1] == '>');
    law_texts::lemma_start_blank(gap, tip);
    assert(tip.take(2) =~= "->"@);
    assert(t.take(n) =~= r);
    assert(t.subrange(n + 1, m) =~= inputs);
    if receiver.len() > 0 {
        assert(r.last() == '.');
        assert(r[0] == receiver[0]);
        law_texts::lemma_tight(r);
        assert(r.drop_last() =~= receiver);
        law_texts::lemma_tight(receiver);
    } else {
        law_texts::lemma_tight(r);
        assert(r =~= Seq::empty());
        assert(receiver =~= Seq::empty());
    }
}

pub(crate) proof fn lemma_trim_twice(whole: Seq<char>, t: Seq<char>)
    requires
        t == text::trimmed(whole),
    ensures
        text::trimmed(t) == t,
{
    let p = text::space_class();
    let s = text::trimmed_start(whole);
    text::lemma_span(whole, p);
    text::lemma_rspan(s, p);
    if t.len() > 0 {
        assert(t[0] == s[0]);
        assert(s[0] == whole[text::span(whole, p)]);
        assert(!p(t[0]));
        assert(t.last() == s[s.len() - 1 - text::rspan(s, p)]);
        assert(!p(t.last()));
    }
    law_texts::lemma_tight(t);
}

/// The receiver's type of a function type is the name before its dot; one without a dot has none.
pub proof fn law_receiver_of_a_function_type(
    receiver: Seq<char>,
    inputs: Seq<char>,
    gap: Seq<char>,
    result: Seq<char>,
)
    requires
        is_arrow(receiver, inputs, gap),
    ensures
        lambda_types::receiver_type(arrow(receiver, inputs, gap, result)) == (if receiver.len() > 0 {
            Some(receiver)
        } else {
            None
        }),
{
    lemma_plain_arrow(receiver, inputs, gap, result);
    if receiver.len() > 0 {
        lemma_base(Seq::empty(), receiver, Seq::empty());
        assert(Seq::<char>::empty() + receiver + Seq::<char>::empty() =~= receiver);
    } else {
        law_texts::lemma_tight(receiver);
        assert(receiver =~= Seq::empty());
        text::lemma_span(receiver, text::dotted_class());
        let d = text::dotted_ident_of(receiver);
        assert(d.len() == 0);
        text::lemma_rspan(d, text::only('.'));
    }
}

pub(crate) proof fn lemma_base(a: Seq<char>, name: Seq<char>, b: Seq<char>)
    requires
        law_texts::blank(a),
        law_texts::is_name(name),
        b.len() > 0 ==> !text::id_char(b[0]) && b[0] != '.',
    ensures
        lambda_types::type_base(a + name + b) == Some(name),
{
    let s = a + name + b;
    law_texts::lemma_name_is_tight(name);
    let p = text::space_class();
    law_texts::lemma_start_blank(a, name + b);
    assert((name + b)[0] == name[0]);
    assert(s =~= a + (name + b));
    let t = text::trimmed(s);
    text::lemma_rspan(name + b, p);
    let cut = text::rspan(name + b, p);
    if (name + b).len() - cut < name.len() {
        assert(p((name + b)[name.len() - 1]));
        assert((name + b)[name.len() - 1] == name.last());
    }
    let rest = t.skip(name.len() as int);
    assert(t =~= name + rest);
    if rest.len() > 0 {
        assert(rest[0] == b[0]);
    }
    law_texts::law_names_at_the_ends(name, rest);
    assert(name.last() != '.');
    text::lemma_rspan_unique(name, text::only('.'), 0);
    assert(name.take(name.len() as int) =~= name);
}

/// The type of a function type's input is the name that it begins with, without its type arguments
/// and question mark, and without the name that the input may bear.
pub proof fn law_input_of_a_function_type(
    receiver: Seq<char>,
    items: Seq<Seq<char>>,
    gap: Seq<char>,
    result: Seq<char>,
    n: int,
    a: Seq<char>,
    name: Seq<char>,
    b: Seq<char>,
)
    requires
        is_arrow(receiver, listed(items), gap),
        all_items(items),
        forall|i: int| 0 <= i < items.len() ==> has_ink(#[trigger] items[i]),
        0 <= n < items.len(),
        law_texts::blank(a),
        law_texts::is_name(name),
        b.len() > 0 ==> !text::id_char(b[0]) && b[0] != '.',
        ({
            ||| items[n] == a + name + b && law_texts::lacks(items[n], ':')
            ||| sig::param_type(items[n]) == Some(a + name + b)
        }),
    ensures
        lambda_types::nth_input(arrow(receiver, listed(items), gap, result), n) == Some(name),
        forall|k: int|
            k >= items.len() ==> #[trigger] lambda_types::nth_input(
                arrow(receiver, listed(items), gap, result),
                k,
            ) is None,
{
    lemma_plain_arrow(receiver, listed(items), gap, result);
    law_lists_are_parted(items);
    lemma_base(a, name, b);
    if law_texts::lacks(items[n], ':') {
        law_texts::law_character_is_found(items[n], ':', Seq::empty());
    }
}

/// A function type that takes no inputs hands its lambda none.
pub proof fn law_function_type_without_inputs(
    receiver: Seq<char>,
    inputs: Seq<char>,
    gap: Seq<char>,
    result: Seq<char>,
    n: int,
)
    requires
        is_arrow(receiver, inputs, gap),
        law_texts::blank(inputs),
    ensures
        lambda_types::nth_input(arrow(receiver, inputs, gap, result), n) is None,
{
    lemma_plain_arrow(receiver, inputs, gap, result);
    law_empty_lists(inputs);
}

proof fn lemma_skip_close(t: Seq<char>, i: int, j: int, d: nat)
    requires
        0 <= i <= j <= t.len(),
        forall|k: int| i <= k < j ==> #[trigger] t[k] != '(' && t[k] != ')',
    ensures
        brackets::close_after(t, i, d) == brackets::close_after(t, j, d),
    decreases j - i,
{
    if i < j {
        assert(t[i] != '(' && t[i] != ')');
        lemma_skip_close(t, i + 1, j, d);
    }
}

/// A function type that is suspended is read like one that is not.
#[verifier::rlimit(60)]
pub proof fn law_suspended_function_type(
    receiver: Seq<char>,
    inputs: Seq<char>,
    gap: Seq<char>,
    result: Seq<char>,
    n: int,
)
    requires
        is_arrow(receiver, inputs, gap),
    ensures
        lambda_types::receiver_type("suspend "@ + arrow(receiver, inputs, gap, result))
            == lambda_types::receiver_type(arrow(receiver, inputs, gap, result)),
        lambda_types::nth_input("suspend "@ + arrow(receiver, inputs, gap, result), n)
            == lambda_types::nth_input(arrow(receiver, inputs, gap, result), n),
{
    let plain = arrow(receiver, inputs, gap, result);
    let word = "suspend "@;
    let whole = word + plain;
    reveal_strlit("suspend ");
    reveal_strlit("->");
    lemma_plain_arrow(receiver, inputs, gap, result);
    if receiver.len() > 0 {
        law_texts::lemma_name_is_tight(receiver);
        assert(plain[0] == receiver[0]);
    } else {
        assert(plain[0] == '(');
    }
    let p = text::space_class();
    assert(word.len() == 8);
    assert(whole[0] == 's');
    assert(!p(whole[0]));
    text::lemma_span_unique(whole, p, 0);
    text::lemma_span_unique(plain, p, 0);
    assert(whole.skip(0) =~= whole);
    assert(plain.skip(0) =~= plain);
    text::lemma_rspan(plain, p);
    let cut = text::rspan(plain, p);
    if cut == plain.len() {
        assert(p(plain[0]));
    }
    assert forall|i: int| whole.len() - cut <= i < whole.len() implies p(#[trigger] whole[i]) by {
        assert(whole[i] == plain[i - 8]);
    }
    assert(whole[whole.len() - 1 - cut] == plain[plain.len() - 1 - cut]);
    text::lemma_rspan_unique(whole, p, cut);
    let t = text::trimmed(plain);
    assert(text::trimmed(whole) =~= word + t);
    assert((word + t).take(8) =~= word);
    assert((word + t).skip(8) =~= t);
    lemma_trim_twice(plain, t);
    assert(lambda_types::not_suspended(whole) == t);
}

/// The parenthesis before a function type is closed behind it.
proof fn lemma_enclosed(
    receiver: Seq<char>,
    inputs: Seq<char>,
    gap: Seq<char>,
    result: Seq<char>,
    end: Seq<char>,
)
    requires
        is_arrow(receiver, inputs, gap),
        law_texts::lacks(result, '('),
        law_texts::lacks(result, ')'),
        end.len() > 0,
        end[0] == ')',
    ensures
        brackets::close_after(seq!['('] + arrow(receiver, inputs, gap, result) + end, 1, 0) == Some(
            1 + arrow(receiver, inputs, gap, result).len() as int,
        ),
{
    let plain = arrow(receiver, inputs, gap, result);
    let whole = seq!['('] + plain + end;
    reveal_strlit("->");
    let r = if receiver.len() > 0 {
        receiver + seq!['.']
    } else {
        receiver
    };
    if receiver.len() > 0 {
        law_texts::lemma_name_is_tight(receiver);
    }
    let a = 1 + r.len() as int;
    let b = a + 1 + inputs.len();
    let g = b + 1 + gap.len();
    let c = 1 + plain.len() as int;
    assert(c == g + 2 + result.len());
    assert(whole[a] == '(');
    assert(whole[b] == ')');
    assert(whole[c] == ')');
    assert forall|k: int| 1 <= k < a implies #[trigger] whole[k] != '(' && whole[k] != ')' by {
        if k - 1 < receiver.len() {
            assert(whole[k] == receiver[k - 1]);
        }
    }
    assert forall|k: int| a + 1 <= k < b implies #[trigger] whole[k] != '(' && whole[k] != ')' by {
        assert(whole[k] == inputs[k - a - 1]);
    }
    assert forall|k: int| b + 1 <= k < c implies #[trigger] whole[k] != '(' && whole[k] != ')' by {
        if k < g {
            assert(whole[k] == gap[k - b - 1]);
            assert(unicode::whitespace(gap[k - b - 1]));
        } else if k >= g + 2 {
            assert(whole[k] == result[k - g - 2]);
        } else if k == g {
            assert(whole[k] == '-');
        } else {
            assert(whole[k] == '>');
        }
    }
    lemma_skip_close(whole, 1, a, 0);
    lemma_skip_close(whole, a + 1, b, 1);
    lemma_skip_close(whole, b + 1, c, 0);
}

/// A function type in parentheses, nullable or not, is read like one without.
#[verifier::rlimit(60)]
pub proof fn law_enclosed_function_type(
    receiver: Seq<char>,
    inputs: Seq<char>,
    gap: Seq<char>,
    result: Seq<char>,
    end: Seq<char>,
    n: int,
)
    requires
        is_arrow(receiver, inputs, gap),
        law_texts::lacks(result, '('),
        law_texts::lacks(result, ')'),
        end == seq![')'] || end == seq![')', '?'],
    ensures
        lambda_types::receiver_type(seq!['('] + arrow(receiver, inputs, gap, result) + end)
            == lambda_types::receiver_type(arrow(receiver, inputs, gap, result)),
        lambda_types::nth_input(seq!['('] + arrow(receiver, inputs, gap, result) + end, n)
            == lambda_types::nth_input(arrow(receiver, inputs, gap, result), n),
{
    let plain = arrow(receiver, inputs, gap, result);
    let whole = seq!['('] + plain + end;
    reveal_strlit("suspend ");
    lemma_plain_arrow(receiver, inputs, gap, result);
    lemma_enclosed(receiver, inputs, gap, result, end);
    assert(whole[0] == '(');
    assert(whole.last() == end.last());
    assert(law_texts::tight(whole));
    law_texts::lemma_tight(whole);
    if text::starts_with(whole, "suspend "@) {
        assert(whole.take(8)[0] == '(');
    }
    assert(lambda_types::not_suspended(whole) == whole);
    let c = 1 + plain.len() as int;
    assert(whole.subrange(1, c) =~= plain);
    assert(lambda_types::not_enclosed(whole) == plain);
    assert(lambda_types::fun_type(whole) == lambda_types::fun_type(plain));
}

/// What holds no arrow is no function type.
pub proof fn law_names_are_no_function_types(name: Seq<char>, n: int)
    requires
        law_texts::is_name(name),
    ensures
        lambda_types::receiver_type(name) is None,
        lambda_types::nth_input(name, n) is None,
{
    law_texts::lemma_name_is_tight(name);
    law_texts::lemma_tight(name);
    reveal_strlit("suspend ");
    if text::starts_with(name, "suspend "@) {
        assert(name.take(8)[7] == ' ');
        assert(name[7] != ' ');
    }
    assert(lambda_types::not_suspended(name) == name);
    assert(name[0] != '(');
    assert(lambda_types::not_enclosed(name) == name);
    law_texts::law_character_is_found(name, '(', Seq::empty());
}

} // verus!
