//! Names of layouts and of the binding classes that are generated for them.
use vstd::prelude::*;
use vstd::string::*;

use crate::text;
use crate::unicode;

verus! {

/// The lowercase mapping of each character.
pub open spec fn lowered(s: Seq<char>) -> Seq<char>
    decreases s.len(),
{
    if s.len() == 0 {
        s
    } else {
        lowered(s.drop_last()) + unicode::lower_mapping(s.last())
    }
}

/// A segment with its first character in uppercase and the others in lowercase.
pub open spec fn capitalized(s: Seq<char>) -> Seq<char> {
    if s.len() == 0 {
        s
    } else {
        unicode::upper_mapping(s[0]) + lowered(s.skip(1))
    }
}

/// The segments, each capitalized, one after the other.
pub open spec fn all_capitalized(segments: Seq<Seq<char>>) -> Seq<char>
    decreases segments.len(),
{
    if segments.len() == 0 {
        Seq::empty()
    } else {
        all_capitalized(segments.drop_last()) + capitalized(segments.last())
    }
}

/// A snake-case name in Pascal case.
pub open spec fn pascal(name: Seq<char>) -> Seq<char> {
    all_capitalized(text::parts(name, '_'))
}

/// A Pascal-case name in snake case: an underscore stands before each uppercase letter but the
/// first, and every character is in lowercase.
pub open spec fn snake(name: Seq<char>) -> Seq<char>
    decreases name.len(),
{
    if name.len() == 0 {
        name
    } else {
        let before = snake(name.drop_last());
        let c = name.last();
        if unicode::uppercase(c) && name.len() > 1 {
            before.push('_') + unicode::lower_mapping(c)
        } else {
            before + unicode::lower_mapping(c)
        }
    }
}

/// Appends the characters `c` to `out`.
fn push_all(out: &mut String, c: &Vec<char>)
    ensures
        final(out)@ == old(out)@ + c@,
{
    let s = text::string_of(c, 0, c.len());
    assert(c@.subrange(0, c@.len() as int) =~= c@);
    out.append(s.as_str());
}

/// A snake-case name in Pascal case (`foo_bar` becomes `FooBar`). Empty segments vanish.
pub fn snake_case_to_pascal_case(name: &str) -> (r: String)
    ensures
        r@ == pascal(name@),
{
    let segments = text::split(name, '_');
    let ghost all = segments.deep_view();
    let mut out = String::new();
    let mut i: usize = 0;
    while i < segments.len()
        invariant
            i <= segments@.len(),
            all == segments.deep_view(),
            out@ == all_capitalized(all.take(i as int)),
        decreases segments@.len() - i,
    {
        let segment = text::chars_of(segments[i]);
        let ghost before = out@;
        proof {
            assert(all.take(i + 1).drop_last() =~= all.take(i as int));
            assert(all.take(i + 1).last() == segment@);
        }
        if segment.len() > 0 {
            let first = unicode::to_upper(segment[0]);
            push_all(&mut out, &first);
            let ghost start = out@;
            let ghost tail = segment@.skip(1);
            let mut j: usize = 1;
            while j < segment.len()
                invariant
                    1 <= j <= segment@.len(),
                    tail == segment@.skip(1),
                    out@ == start + lowered(tail.take(j - 1)),
                decreases segment@.len() - j,
            {
                let ghost mid = out@;
                let c = unicode::to_lower(segment[j]);
                push_all(&mut out, &c);
                proof {
                    assert(tail.take(j as int).drop_last() =~= tail.take(j - 1));
                    assert(tail.take(j as int).last() == segment@[j as int]);
                    assert(out@ =~= start + lowered(tail.take(j as int)));
                }
                j += 1;
            }
            proof {
                assert(tail.take(tail.len() as int) =~= tail);
                assert(out@ =~= before + capitalized(segment@));
            }
        } else {
            assert(before + capitalized(segment@) =~= before);
        }
        i += 1;
    }
    assert(all.take(all.len() as int) =~= all);
    out
}

/// A Pascal-case name in snake case (`FooBar` becomes `foo_bar`).
pub fn pascal_case_to_snake_case(name: &str) -> (r: String)
    ensures
        r@ == snake(name@),
{
    let c = text::chars_of(name);
    let mut out = String::new();
    let mut i: usize = 0;
    while i < c.len()
        invariant
            i <= c@.len(),
            c@ == name@,
            out@ == snake(name@.take(i as int)),
        decreases c@.len() - i,
    {
        let ghost before = out@;
        proof {
            assert(name@.take(i + 1).drop_last() =~= name@.take(i as int));
            assert(name@.take(i + 1).last() == c@[i as int]);
        }
        if c[i].is_uppercase() && i > 0 {
            out.push('_');
        }
        let l = unicode::to_lower(c[i]);
        push_all(&mut out, &l);
        i += 1;
    }
    assert(name@.take(c@.len() as int) =~= name@);
    out
}

/// The name of the class that is generated for a layout.
pub open spec fn binding_class(layout: Seq<char>) -> Seq<char> {
    pascal(layout) + "Binding"@
}

/// The name of the layout that a binding class is generated for.
pub open spec fn layout_of_class(class: Seq<char>) -> Option<Seq<char>> {
    match text::suffix_stripped(class, "Binding"@) {
        Some(base) => if base.len() == 0 {
            None
        } else {
            Some(snake(base))
        },
        None => None,
    }
}

/// The name of the class that is generated for a layout (`foo_bar` gives `FooBarBinding`).
pub fn binding_class_name_for_layout(layout_name: &str) -> (r: String)
    ensures
        r@ == binding_class(layout_name@),
{
    let base = snake_case_to_pascal_case(layout_name);
    text::concat(base.as_str(), "Binding")
}

/// The name of the layout that a binding class is generated for (`FooBarBinding` gives
/// `foo_bar`).
pub fn layout_name_for_binding_class(class_name: &str) -> (r: Option<String>)
    ensures
        r.deep_view() == layout_of_class(class_name@),
{
    match text::strip_suffix(class_name, "Binding") {
        Some(base) => {
            if base.is_empty() {
                None
            } else {
                Some(pascal_case_to_snake_case(base))
            }
        },
        None => None,
    }
}

// ---------------------------------------------------------------------------
// Round trip
// ---------------------------------------------------------------------------

/// A character that stays as it is in lowercase and in snake case, as lowercase letters and
/// digits do.
pub open spec fn steady(c: char) -> bool {
    &&& c != '_'
    &&& !unicode::uppercase(c)
    &&& unicode::lower_mapping(c) == seq![c]
}

/// A lowercase letter that has an uppercase letter of its own, as the letters from `a` to `z`
/// do.
pub open spec fn paired(c: char) -> bool {
    &&& steady(c)
    &&& unicode::upper_mapping(c).len() == 1
    &&& unicode::uppercase(unicode::upper_mapping(c)[0])
    &&& unicode::lower_mapping(unicode::upper_mapping(c)[0]) == seq![c]
}

/// A segment that begins with such a letter and goes on in steady characters.
pub open spec fn plain_segment(s: Seq<char>) -> bool {
    &&& s.len() > 0
    &&& paired(s[0])
    &&& forall|i: int| 0 <= i < s.len() ==> steady(#[trigger] s[i])
}

/// A layout name of such segments, with one underscore between two of them.
pub open spec fn plain_layout(name: Seq<char>) -> bool {
    forall|i: int|
        0 <= i < text::parts(name, '_').len() ==> plain_segment(
            #[trigger] text::parts(name, '_')[i],
        )
}

proof fn lemma_lowered(s: Seq<char>)
    requires
        forall|i: int| 0 <= i < s.len() ==> steady(#[trigger] s[i]),
    ensures
        lowered(s) == s,
    decreases s.len(),
{
    if s.len() > 0 {
        let t = s.drop_last();
        assert forall|i: int| 0 <= i < t.len() implies steady(#[trigger] t[i]) by {
            assert(t[i] == s[i]);
        }
        lemma_lowered(t);
        assert(steady(s[s.len() - 1]));
        assert(t + seq![s.last()] =~= s);
    }
}

proof fn lemma_snake_tail(a: Seq<char>, s: Seq<char>)
    requires
        a.len() > 0,
        forall|i: int| 0 <= i < s.len() ==> steady(#[trigger] s[i]),
    ensures
        snake(a + s) == snake(a) + s,
    decreases s.len(),
{
    if s.len() == 0 {
        assert(a + s =~= a);
        assert(snake(a) + s =~= snake(a));
    } else {
        let t = s.drop_last();
        assert forall|i: int| 0 <= i < t.len() implies steady(#[trigger] t[i]) by {
            assert(t[i] == s[i]);
        }
        lemma_snake_tail(a, t);
        assert((a + s).drop_last() =~= a + t);
        assert(steady(s[s.len() - 1]));
        assert((a + s).last() == s.last());
        assert(snake(a) + t + seq![s.last()] =~= snake(a) + s);
    }
}

/// In snake case a capitalized segment is the segment again, after an underscore unless it
/// comes first.
proof fn lemma_snake_segment(a: Seq<char>, s: Seq<char>)
    requires
        plain_segment(s),
    ensures
        capitalized(s).len() > 0,
        snake(a + capitalized(s)) == (if a.len() == 0 {
            s
        } else {
            snake(a) + seq!['_'] + s
        }),
{
    let u = unicode::upper_mapping(s[0])[0];
    let t = s.skip(1);
    assert(paired(s[0]));
    assert forall|i: int| 0 <= i < t.len() implies steady(#[trigger] t[i]) by {
        assert(t[i] == s[i + 1]);
    }
    lemma_lowered(t);
    assert(unicode::upper_mapping(s[0]) =~= seq![u]);
    assert(a + capitalized(s) =~= a.push(u) + t);
    lemma_snake_tail(a.push(u), t);
    assert(a.push(u).drop_last() =~= a);
    assert(seq![s[0]] + t =~= s);
    if a.len() == 0 {
        assert(snake(a) =~= Seq::<char>::empty());
        assert(Seq::<char>::empty() + seq![s[0]] + t =~= s);
    } else {
        assert(snake(a).push('_') + seq![s[0]] + t =~= snake(a) + seq!['_'] + s);
    }
}

/// Segments that follow others join on with an underscore before each.
proof fn lemma_snake_all(segments: Seq<Seq<char>>)
    requires
        segments.len() > 0,
        forall|i: int| 0 <= i < segments.len() ==> plain_segment(#[trigger] segments[i]),
    ensures
        all_capitalized(segments).len() > 0,
        snake(all_capitalized(segments)) == text::unsplit(segments, '_'),
    decreases segments.len(),
{
    let t = segments.drop_last();
    let last = segments.last();
    assert(plain_segment(segments[segments.len() - 1]));
    assert forall|i: int| 0 <= i < t.len() implies plain_segment(#[trigger] t[i]) by {
        assert(t[i] == segments[i]);
    }
    if t.len() == 0 {
        assert(all_capitalized(t) =~= Seq::<char>::empty());
        lemma_snake_segment(Seq::empty(), last);
    } else {
        lemma_snake_all(t);
        lemma_snake_segment(all_capitalized(t), last);
        lemma_unsplit_last(segments, '_');
    }
}

proof fn lemma_unsplit_last(p: Seq<Seq<char>>, k: char)
    requires
        p.len() > 1,
    ensures
        text::unsplit(p, k) == text::unsplit(p.drop_last(), k) + seq![k] + p.last(),
    decreases p.len(),
{
    let t = p.skip(1);
    assert(text::unsplit(p, k) == p[0] + seq![k] + text::unsplit(t, k));
    if p.len() == 2 {
        assert(text::unsplit(p.drop_last(), k) == p[0]);
        assert(text::unsplit(t, k) == p[1]);
    } else {
        lemma_unsplit_last(t, k);
        assert(p.drop_last().skip(1) =~= t.drop_last());
        assert(text::unsplit(p, k) =~= text::unsplit(p.drop_last(), k) + seq![k] + p.last());
    }
}

/// The layout of the class that is generated for a layout is that layout, where the segments of
/// its name begin with lowercase letters and have no capitals in them.
pub proof fn law_layout_round_trip(layout: Seq<char>)
    ensures
        plain_layout(layout) ==> layout_of_class(binding_class(layout)) == Some(layout),
{
    if plain_layout(layout) {
        let base = pascal(layout);
        let class = binding_class(layout);
        text::lemma_unsplit(layout, '_');
        lemma_snake_all(text::parts(layout, '_'));
        assert(class.skip(class.len() - "Binding"@.len()) =~= "Binding"@);
        assert(class.take(class.len() - "Binding"@.len()) =~= base);
    }
}

/// A lowercase letter or a digit of ASCII, as names of layouts have them.
pub open spec fn name_char(c: char) -> bool {
    'a' <= c <= 'z' || '0' <= c <= '9'
}

/// Whether a name is made of segments, with one underscore between two of them, that each begin
/// with a letter from `a` to `z` and go on in such letters and digits.
pub open spec fn resource_name(name: Seq<char>) -> bool {
    forall|i: int|
        0 <= i < text::parts(name, '_').len() ==> resource_segment(
            #[trigger] text::parts(name, '_')[i],
        )
}

/// A segment of such a name.
pub open spec fn resource_segment(s: Seq<char>) -> bool {
    &&& s.len() > 0
    &&& 'a' <= s[0] <= 'z'
    &&& forall|i: int| 0 <= i < s.len() ==> name_char(#[trigger] s[i])
}

/// The layout of the class that is generated for a layout is that layout, for all names that
/// resources have (`foo_bar` gives `FooBarBinding`, which gives `foo_bar`).
pub proof fn law_resource_names_round_trip(layout: Seq<char>)
    requires
        resource_name(layout),
    ensures
        layout_of_class(binding_class(layout)) == Some(layout),
{
    let parts = text::parts(layout, '_');
    assert forall|i: int| 0 <= i < parts.len() implies plain_segment(#[trigger] parts[i]) by {
        let s = parts[i];
        assert(resource_segment(s));
        assert forall|k: int| 0 <= k < s.len() implies steady(#[trigger] s[k]) by {
            assert(name_char(s[k]));
        }
        let u = (s[0] as u32 - 32) as char;
        assert(u as u32 == s[0] as u32 - 32);
        assert('A' <= u <= 'Z');
        assert((u as u32 + 32) as char == s[0]);
        assert(unicode::upper_mapping(s[0])[0] == u);
        assert(unicode::lower_mapping(u) =~= seq![s[0]]);
        assert(paired(s[0]));
    }
    law_layout_round_trip(layout);
}

/// Different layouts have different classes, where the segments of their names begin with
/// lowercase letters and have no capitals in them.
pub proof fn law_classes_differ(a: Seq<char>, b: Seq<char>)
    ensures
        plain_layout(a) && plain_layout(b) && binding_class(a) == binding_class(b) ==> a == b,
{
    law_layout_round_trip(a);
    law_layout_round_trip(b);
}

} // verus!
