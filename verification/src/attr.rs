//! Shared tag primitives: lookup, take, and matched removal.
//!
//! All higher passes are built from these. They are structural and
//! order-stable: the first matching tag decides the returned argument.
use vstd::prelude::*;

use crate::ast::{lemma_tags_view, lemma_tags_view_push, tag_view, tags_view, Tag, TagV};
use crate::dup::copy_tag;

verus! {

/// The tag family that scopes a declaration to one variant.
pub open spec fn spec_variant_family() -> Seq<char> {
    "amphi"@
}

/// The tag family that names an external source fragment for an out-of-line
/// module.
pub open spec fn spec_source_family() -> Seq<char> {
    "non_inline_module"@
}

/// The variant tag family name, as an owned string.
pub fn variant_family() -> (s: String)
    ensures
        s@ == spec_variant_family(),
{
    "amphi".to_owned()
}

/// The source tag family name, as an owned string.
pub fn source_family() -> (s: String)
    ensures
        s@ == spec_source_family(),
{
    "non_inline_module".to_owned()
}

/// Whether some tag in the list has the given family name and argument.
pub open spec fn has_tag(tags: Seq<TagV>, family: Seq<char>, arg: Seq<char>) -> bool
    decreases tags,
{
    if tags.len() == 0 {
        false
    } else {
        has_tag(tags.subrange(0, tags.len() - 1), family, arg) || (tags[tags.len() - 1].name
            == family && tags[tags.len() - 1].arg == arg)
    }
}

/// The tag list with every tag of the given family name and argument removed.
pub open spec fn strip_tags(tags: Seq<TagV>, family: Seq<char>, arg: Seq<char>) -> Seq<TagV>
    decreases tags,
{
    if tags.len() == 0 {
        Seq::<TagV>::empty()
    } else {
        let rest = strip_tags(tags.subrange(0, tags.len() - 1), family, arg);
        let last = tags[tags.len() - 1];
        if last.name == family && last.arg == arg {
            rest
        } else {
            rest.push(last)
        }
    }
}

/// The index of the first tag whose family name matches, or the list's
/// length when none does.
pub open spec fn first_named(tags: Seq<TagV>, family: Seq<char>) -> int
    decreases tags,
{
    if tags.len() == 0 {
        0
    } else if tags[0].name == family {
        0
    } else {
        1 + first_named(tags.subrange(1, tags.len() as int), family)
    }
}

pub proof fn lemma_has_tag_push(tags: Seq<TagV>, x: TagV, family: Seq<char>, arg: Seq<char>)
    ensures
        has_tag(tags.push(x), family, arg) == (has_tag(tags, family, arg) || (x.name == family
            && x.arg == arg)),
{
    assert(tags.push(x).subrange(0, tags.push(x).len() - 1) =~= tags);
    assert(tags.push(x)[tags.push(x).len() - 1] == x);
}

pub proof fn lemma_strip_tags_push(tags: Seq<TagV>, x: TagV, family: Seq<char>, arg: Seq<char>)
    ensures
        strip_tags(tags.push(x), family, arg) == if x.name == family && x.arg == arg {
            strip_tags(tags, family, arg)
        } else {
            strip_tags(tags, family, arg).push(x)
        },
{
    assert(tags.push(x).subrange(0, tags.push(x).len() - 1) =~= tags);
    assert(tags.push(x)[tags.push(x).len() - 1] == x);
}

/// A stripped list holds no tag of the stripped family name and argument.
pub proof fn lemma_strip_tags_clean(tags: Seq<TagV>, family: Seq<char>, arg: Seq<char>)
    ensures
        !has_tag(strip_tags(tags, family, arg), family, arg),
    decreases tags,
{
    if tags.len() > 0 {
        let pre = tags.subrange(0, tags.len() - 1);
        lemma_strip_tags_clean(pre, family, arg);
        let last = tags[tags.len() - 1];
        if !(last.name == family && last.arg == arg) {
            lemma_has_tag_push(strip_tags(pre, family, arg), last, family, arg);
        }
    }
}

/// Stripping one family name and argument leaves tags of every other
/// family name or argument exactly as often as before.
pub proof fn lemma_strip_tags_other(
    tags: Seq<TagV>,
    family: Seq<char>,
    arg: Seq<char>,
    family2: Seq<char>,
    arg2: Seq<char>,
)
    requires
        family2 != family || arg2 != arg,
    ensures
        has_tag(strip_tags(tags, family, arg), family2, arg2) == has_tag(tags, family2, arg2),
    decreases tags,
{
    if tags.len() > 0 {
        let pre = tags.subrange(0, tags.len() - 1);
        lemma_strip_tags_other(pre, family, arg, family2, arg2);
        let last = tags[tags.len() - 1];
        if !(last.name == family && last.arg == arg) {
            lemma_has_tag_push(strip_tags(pre, family, arg), last, family2, arg2);
        }
    }
}

/// Stripping never adds a tag: whatever family name and argument a
/// stripped list holds, the original held too.
pub proof fn lemma_strip_tags_monotone(
    tags: Seq<TagV>,
    family: Seq<char>,
    arg: Seq<char>,
    family2: Seq<char>,
    arg2: Seq<char>,
)
    ensures
        has_tag(strip_tags(tags, family, arg), family2, arg2) ==> has_tag(tags, family2, arg2),
    decreases tags,
{
    if tags.len() > 0 {
        let pre = tags.subrange(0, tags.len() - 1);
        lemma_strip_tags_monotone(pre, family, arg, family2, arg2);
        let last = tags[tags.len() - 1];
        if !(last.name == family && last.arg == arg) {
            lemma_has_tag_push(strip_tags(pre, family, arg), last, family2, arg2);
        }
    }
}

pub proof fn lemma_first_named_bounds(tags: Seq<TagV>, family: Seq<char>)
    ensures
        0 <= first_named(tags, family) <= tags.len(),
    decreases tags,
{
    if tags.len() > 0 && tags[0].name != family {
        lemma_first_named_bounds(tags.subrange(1, tags.len() as int), family);
    }
}

proof fn lemma_first_named_found(tags: Seq<TagV>, family: Seq<char>, i: int)
    requires
        0 <= i < tags.len(),
        forall|j: int| 0 <= j < i ==> (#[trigger] tags[j]).name != family,
        tags[i].name == family,
    ensures
        first_named(tags, family) == i,
    decreases tags,
{
    if i > 0 {
        let rest = tags.subrange(1, tags.len() as int);
        assert forall|j: int| 0 <= j < i - 1 implies (#[trigger] rest[j]).name != family by {
            assert(rest[j] == tags[j + 1]);
        }
        assert(rest[i - 1] == tags[i]);
        lemma_first_named_found(rest, family, i - 1);
    }
}

proof fn lemma_first_named_absent(tags: Seq<TagV>, family: Seq<char>)
    requires
        forall|j: int| 0 <= j < tags.len() ==> (#[trigger] tags[j]).name != family,
    ensures
        first_named(tags, family) == tags.len(),
    decreases tags,
{
    if tags.len() > 0 {
        let rest = tags.subrange(1, tags.len() as int);
        assert forall|j: int| 0 <= j < rest.len() implies (#[trigger] rest[j]).name != family by {
            assert(rest[j] == tags[j + 1]);
        }
        lemma_first_named_absent(rest, family);
    }
}

/// True iff some tag on the node has the variant family name and the given
/// argument value.
pub fn find_attribute(attrs: &Vec<Tag>, to_match: &String) -> (found: bool)
    ensures
        found == has_tag(tags_view(attrs@), spec_variant_family(), to_match@),
{
    let family = variant_family();
    let mut found = false;
    let mut i: usize = 0;
    while i < attrs.len()
        invariant
            i <= attrs.len(),
            family@ == spec_variant_family(),
            found == has_tag(
                tags_view(attrs@.subrange(0, i as int)),
                spec_variant_family(),
                to_match@,
            ),
        decreases attrs@.len() - i,
    {
        let hit = attrs[i].name == family && attrs[i].arg == *to_match;
        proof {
            lemma_tags_view_push(attrs@.subrange(0, i as int), attrs@[i as int]);
            assert(attrs@.subrange(0, i as int).push(attrs@[i as int]) =~= attrs@.subrange(
                0,
                (i + 1) as int,
            ));
            lemma_has_tag_push(
                tags_view(attrs@.subrange(0, i as int)),
                tag_view(attrs@[i as int]),
                spec_variant_family(),
                to_match@,
            );
        }
        found = found || hit;
        i += 1;
    }
    proof {
        assert(attrs@.subrange(0, attrs@.len() as int) =~= attrs@);
    }
    found
}

/// Removes the first tag of the given family name, whatever its argument,
/// and returns that argument; `None` when no tag of the family is present.
pub fn pop_attribute(attrs: &mut Vec<Tag>, ident: &String) -> (r: Option<String>)
    ensures
        ({
            let s = tags_view(old(attrs)@);
            let i = first_named(s, ident@);
            if i == s.len() {
                r is None && tags_view(final(attrs)@) == s
            } else {
                &&& r matches Option::Some(arg) && arg@ == s[i].arg
                &&& tags_view(final(attrs)@) == s.subrange(0, i) + s.subrange(i + 1, s.len() as int)
            }
        }),
{
    proof {
        lemma_tags_view(attrs@);
    }
    let ghost s = tags_view(attrs@);
    let mut i: usize = 0;
    while i < attrs.len()
        invariant
            i <= attrs.len(),
            attrs@ == old(attrs)@,
            s == tags_view(attrs@),
            s.len() == attrs@.len(),
            forall|j: int| 0 <= j < i ==> (#[trigger] s[j]).name != ident@,
        decreases attrs@.len() - i,
    {
        proof {
            lemma_tags_view(attrs@);
        }
        if attrs[i].name == *ident {
            let arg = attrs[i].arg.clone();
            proof {
                lemma_first_named_found(s, ident@, i as int);
            }
            let ghost pre = attrs@;
            attrs.remove(i);
            proof {
                assert(attrs@ =~= pre.subrange(0, i as int) + pre.subrange(
                    i + 1,
                    pre.len() as int,
                ));
                lemma_tags_view_concat(
                    pre.subrange(0, i as int),
                    pre.subrange(i + 1, pre.len() as int),
                );
                lemma_tags_view_subrange(pre, 0, i as int);
                lemma_tags_view_subrange(pre, i + 1, pre.len() as int);
                lemma_tags_view(pre);
                assert(tags_view(attrs@) =~= s.subrange(0, i as int) + s.subrange(
                    i + 1,
                    s.len() as int,
                ));
            }
            return Option::Some(arg);
        }
        i += 1;
    }
    proof {
        lemma_first_named_absent(s, ident@);
    }
    Option::None
}

/// Removes every tag matching both the family name and the argument value;
/// returns the argument when a removal occurred.
pub fn remove_matched_attribute(attrs: &mut Vec<Tag>, ident: &String, to_match: &String) -> (r:
    Option<String>)
    ensures
        tags_view(final(attrs)@) == strip_tags(tags_view(old(attrs)@), ident@, to_match@),
        r is Some <==> has_tag(tags_view(old(attrs)@), ident@, to_match@),
        r matches Option::Some(arg) ==> arg@ == to_match@,
{
    let mut out: Vec<Tag> = Vec::new();
    let mut found = false;
    let mut i: usize = 0;
    while i < attrs.len()
        invariant
            i <= attrs.len(),
            attrs@ == old(attrs)@,
            tags_view(out@) == strip_tags(
                tags_view(attrs@.subrange(0, i as int)),
                ident@,
                to_match@,
            ),
            found == has_tag(tags_view(attrs@.subrange(0, i as int)), ident@, to_match@),
        decreases attrs@.len() - i,
    {
        let hit = attrs[i].name == *ident && attrs[i].arg == *to_match;
        proof {
            lemma_tags_view_push(attrs@.subrange(0, i as int), attrs@[i as int]);
            assert(attrs@.subrange(0, i as int).push(attrs@[i as int]) =~= attrs@.subrange(
                0,
                (i + 1) as int,
            ));
            lemma_has_tag_push(
                tags_view(attrs@.subrange(0, i as int)),
                tag_view(attrs@[i as int]),
                ident@,
                to_match@,
            );
            lemma_strip_tags_push(
                tags_view(attrs@.subrange(0, i as int)),
                tag_view(attrs@[i as int]),
                ident@,
                to_match@,
            );
            if !hit {
                lemma_tags_view_push(out@, attrs@[i as int]);
            }
        }
        if hit {
            found = true;
        } else {
            let kept = copy_tag(&attrs[i]);
            proof {
                lemma_tags_view_push(out@, kept);
            }
            out.push(kept);
        }
        i += 1;
    }
    proof {
        assert(attrs@.subrange(0, attrs@.len() as int) =~= attrs@);
    }
    *attrs = out;
    if found {
        Option::Some(to_match.clone())
    } else {
        Option::None
    }
}

/// Concatenation distributes through the tag-list view.
pub proof fn lemma_tags_view_concat(a: Seq<Tag>, b: Seq<Tag>)
    ensures
        tags_view(a + b) == tags_view(a) + tags_view(b),
    decreases b,
{
    if b.len() == 0 {
        assert(a + b =~= a);
        assert(tags_view(a) + tags_view(b) =~= tags_view(a));
    } else {
        let bpre = b.subrange(0, b.len() - 1);
        lemma_tags_view_concat(a, bpre);
        assert((a + b).subrange(0, (a + b).len() - 1) =~= a + bpre);
        assert((a + b)[(a + b).len() - 1] == b[b.len() - 1]);
        assert(tags_view(a) + tags_view(b) =~= (tags_view(a) + tags_view(bpre)).push(
            tag_view(b[b.len() - 1]),
        ));
    }
}

/// Subrange commutes with the tag-list view.
pub proof fn lemma_tags_view_subrange(s: Seq<Tag>, a: int, b: int)
    requires
        0 <= a <= b <= s.len(),
    ensures
        tags_view(s.subrange(a, b)) == tags_view(s).subrange(a, b),
{
    lemma_tags_view(s);
    lemma_tags_view(s.subrange(a, b));
    assert(tags_view(s.subrange(a, b)) =~= tags_view(s).subrange(a, b));
}

} // verus!
