//! How paths are read, taken apart and put together.

use crate::nesting::holder;
use crate::path::{
    extension_of, first_slash, joined_names, last_dot, lemma_first_slash, name_of, names,
    parent_parts, path_parts, path_text, renamed_parts, within,
};
use crate::seed::{default_staging_parts, Options};
use vstd::prelude::*;
use vstd::utf8::{encode_utf8, is_ascii_chars_encode_utf8};

verus! {

/// A path is within another if and only if it is that path and something behind
/// it, which may be nothing.
pub proof fn law_within_is_behind(path: Seq<Seq<u8>>, base: Seq<Seq<u8>>, rest: Seq<Seq<u8>>)
    ensures
        within(base + rest, base),
        within(path, base) ==> path == base + path.skip(base.len() as int),
        within(path, base) <==> base.len() <= path.len() && forall|i: int|
            0 <= i < base.len() ==> #[trigger] path[i] == base[i],
{
    assert(base.is_prefix_of(base + rest));
    if within(path, base) {
        assert(path =~= base + path.skip(base.len() as int));
        assert forall|i: int| 0 <= i < base.len() implies #[trigger] path[i] == base[i] by {
            assert(path.take(base.len() as int)[i] == path[i]);
        }
    }
    if base.len() <= path.len() && forall|i: int|
        0 <= i < base.len() ==> #[trigger] path[i] == base[i] {
        assert(path.subrange(0, base.len() as int) =~= base);
    }
}

/// What is in a directory under a name has that name and that directory as its
/// parent, and is renamed within it. The root, the directory a path is in and the
/// one above it are no names: what ends in one of them is renamed by adding to it.
pub proof fn law_a_name_in_a_directory(dir: Seq<Seq<u8>>, name: Seq<u8>, other: Seq<u8>)
    ensures
        ({
            let path = dir.push(name);
            let named = name != seq![0x2fu8] && name != seq![0x2eu8] && name != seq![
                0x2eu8,
                0x2eu8,
            ];
            &&& name_of(path) == if named {
                Some(name)
            } else {
                None
            }
            &&& parent_parts(path) == if name == seq![0x2fu8] {
                None
            } else {
                Some(dir)
            }
            &&& holder(path) == if name == seq![0x2fu8] {
                None
            } else if dir.len() == 0 {
                Some(seq![seq![0x2eu8]])
            } else {
                Some(dir)
            }
            &&& renamed_parts(path, other) == if named {
                dir.push(other)
            } else {
                path.push(other)
            }
        }),
        name_of(Seq::<Seq<u8>>::empty()) is None,
        parent_parts(Seq::<Seq<u8>>::empty()) is None,
        holder(Seq::<Seq<u8>>::empty()) is None,
        renamed_parts(Seq::empty(), other) == seq![other],
{
    let path = dir.push(name);
    assert(path.drop_last() =~= dir);
    assert(path.last() == name);
    assert(Seq::<Seq<u8>>::empty().push(other) =~= seq![other]);
}

proof fn lemma_last_dot_is_last(name: Seq<u8>, upto: nat)
    requires
        upto <= name.len(),
    ensures
        match last_dot(name, upto) {
            Some(at) => at < upto && name[at as int] == 0x2e && forall|i: int|
                at < i < upto ==> #[trigger] name[i] != 0x2e,
            None => forall|i: int| 0 <= i < upto ==> #[trigger] name[i] != 0x2e,
        },
    decreases upto,
{
    if upto > 0 && name[upto - 1] != 0x2e {
        lemma_last_dot_is_last(name, (upto - 1) as nat);
    }
}

/// A name has an extension if and only if it has a dot that it does not start
/// with. Where the name is something, a dot and what has no dot in it, the
/// extension is the latter.
pub proof fn law_an_extension_is_behind_the_last_dot(
    name: Seq<u8>,
    stem: Seq<u8>,
    extension: Seq<u8>,
)
    requires
        stem.len() > 0,
        !extension.contains(0x2e),
    ensures
        extension_of(stem.push(0x2e) + extension) == Some(extension),
        extension_of(name) is Some <==> exists|i: int|
            0 < i < name.len() && #[trigger] name[i] == 0x2e,
        extension_of(name) matches Some(e) ==> !e.contains(0x2e) && exists|s: Seq<u8>|
            s.len() > 0 && name == #[trigger] s.push(0x2e) + e,
{
    let whole = stem.push(0x2e) + extension;
    lemma_last_dot_is_last(whole, whole.len());
    lemma_last_dot_is_last(name, name.len());
    assert(whole[stem.len() as int] == 0x2e);
    let at = last_dot(whole, whole.len())->0;
    if at > stem.len() {
        assert(whole[at as int] == extension[at - stem.len() - 1]);
        assert(extension.contains(whole[at as int]));
    }
    assert(whole.skip(stem.len() as int + 1) =~= extension);
    if let Some(e) = extension_of(name) {
        let at = last_dot(name, name.len())->0 as int;
        assert(name[at] == 0x2e);
        let s = name.take(at);
        assert(name =~= s.push(0x2e) + e);
        if e.contains(0x2e) {
            let i = choose|i: int| 0 <= i < e.len() && e[i] == 0x2e;
            assert(name[at + 1 + i] == 0x2e);
        }
    }
}

proof fn lemma_first_slash_ahead(a: Seq<u8>, b: Seq<u8>)
    ensures
        first_slash(a) < a.len() ==> first_slash(a + b) == first_slash(a),
        first_slash(a) == a.len() ==> first_slash(a + seq![0x2fu8] + b) == a.len(),
    decreases a.len(),
{
    lemma_first_slash(a);
    if a.len() > 0 && a[0] != 0x2f {
        let rest = a.drop_first();
        lemma_first_slash_ahead(rest, b);
        assert((a + b).drop_first() =~= rest + b);
        assert((a + seq![0x2fu8] + b).drop_first() =~= rest + seq![0x2fu8] + b);
    } else if a.len() == 0 {
        assert((a + seq![0x2fu8] + b)[0] == 0x2f);
    }
}

/// A separator separates: the names of two texts with one between them are the
/// names of the one and then those of the other.
pub proof fn law_names_stand_between_separators(a: Seq<u8>, b: Seq<u8>)
    ensures
        names(a + seq![0x2fu8] + b) == names(a) + names(b),
    decreases a.len(),
{
    let text = a + seq![0x2fu8] + b;
    lemma_first_slash(a);
    lemma_first_slash(text);
    lemma_first_slash_ahead(a, seq![0x2fu8] + b);
    lemma_first_slash_ahead(a, b);
    assert(a + (seq![0x2fu8] + b) =~= text);
    let end = first_slash(a) as int;
    if end < a.len() {
        let rest = a.skip(end + 1);
        law_names_stand_between_separators(rest, b);
        assert(text.skip(end + 1) =~= rest + seq![0x2fu8] + b);
        assert(text.take(end) =~= a.take(end));
        assert(names(text) =~= names(a) + names(b));
    } else {
        assert(text.take(end) =~= a);
        assert(a.take(end) =~= a);
        assert(text.skip(end + 1) =~= b);
        assert(names(text) =~= names(a) + names(b));
    }
}

proof fn lemma_no_slash(text: Seq<u8>)
    requires
        !text.contains(0x2f),
    ensures
        first_slash(text) == text.len(),
    decreases text.len(),
{
    if text.len() > 0 {
        assert(text.contains(text[0]));
        let rest = text.drop_first();
        assert forall|i: int| 0 <= i < rest.len() implies rest[i] != 0x2f by {
            assert(text.contains(text[i + 1]));
        }
        lemma_no_slash(rest);
    }
}

/// A text without a separator is one name, but for the empty text and a single
/// dot, which are none.
pub proof fn law_a_text_without_separators_is_one_name(text: Seq<u8>)
    requires
        !text.contains(0x2f),
    ensures
        names(text) == if text.len() == 0 || text == seq![0x2eu8] {
            Seq::<Seq<u8>>::empty()
        } else {
            seq![text]
        },
{
    lemma_no_slash(text);
    assert(text.take(text.len() as int) =~= text);
    assert(seq![text] + Seq::<Seq<u8>>::empty() =~= seq![text]);
}

/// The components of a path are its names, behind the root where the text starts
/// with a separator, and behind a single dot where it starts with one that stands
/// by itself.
pub proof fn law_what_a_text_spells(text: Seq<u8>)
    ensures
        path_parts(text) == if text.len() > 0 && text[0] == 0x2f {
            seq![seq![0x2fu8]] + names(text)
        } else if text.len() > 0 && text[0] == 0x2e && (text.len() == 1 || text[1] == 0x2f) {
            seq![seq![0x2eu8]] + names(text)
        } else {
            names(text)
        },
{
    lemma_first_slash(text);
    let head = text.take(first_slash(text) as int);
    reveal_with_fuel(first_slash, 3);
    if text.len() > 0 && text[0] == 0x2e && (text.len() == 1 || text[1] == 0x2f) {
        assert(first_slash(text) == 1);
        assert(head =~= seq![0x2eu8]);
    } else if head == seq![0x2eu8] {
        assert(head.len() == 1);
        assert(head[0] == text[0]);
    }
}

/// A path is spelled as its components with single separators between them; the
/// root is its own separator.
pub proof fn law_how_a_path_is_spelled(name: Seq<u8>, rest: Seq<Seq<u8>>)
    requires
        rest.len() > 0,
    ensures
        path_text(Seq::empty()) == Seq::<u8>::empty(),
        name != seq![0x2fu8] ==> path_text(seq![name]) == name,
        name != seq![0x2fu8] && rest[0] != seq![0x2fu8] ==> path_text(seq![name] + rest) == name
            + seq![0x2fu8] + path_text(rest),
        rest[0] != seq![0x2fu8] ==> path_text(seq![seq![0x2fu8]] + rest) == seq![0x2fu8]
            + path_text(rest),
        path_text(seq![seq![0x2fu8]]) == seq![0x2fu8],
{
    let root = seq![0x2fu8];
    assert((seq![name] + rest).skip(1) =~= rest);
    assert((seq![root] + rest).skip(1) =~= rest);
    assert((seq![root] + rest)[0] == root);
    assert((seq![name] + rest)[0] == name);
    assert(seq![root].skip(1) =~= Seq::empty());
    assert(path_text(seq![root]) =~= root);
    reveal_with_fuel(joined_names, 2);
}

/// A tree bound for a name in a directory is staged in that directory, under the
/// name and `.partial`; where the path does not end in a name, in the path itself.
pub proof fn law_where_a_tree_is_staged(dir: Seq<Seq<u8>>, name: Seq<u8>)
    ensures
        default_staging_parts(dir.push(name)) == if name == seq![0x2fu8] || name == seq![0x2eu8]
            || name == seq![0x2eu8, 0x2eu8] {
            dir.push(name).push(encode_utf8("target.partial"@))
        } else {
            dir.push(name + encode_utf8(".partial"@))
        },
{
    reveal_strlit("target");
    reveal_strlit(".partial");
    reveal_strlit("target.partial");
    is_ascii_chars_encode_utf8("target"@);
    is_ascii_chars_encode_utf8(".partial"@);
    is_ascii_chars_encode_utf8("target.partial"@);
    assert(encode_utf8("target"@) + encode_utf8(".partial"@) =~= encode_utf8("target.partial"@));
    law_a_name_in_a_directory(dir, name, name + encode_utf8(".partial"@));
    law_a_name_in_a_directory(dir, name, encode_utf8("target.partial"@));
}

/// A tree is staged where that was asked for, and else beside its destination.
pub proof fn law_staged_where_it_was_asked_for(opts: Options)
    ensures
        opts.staging matches Some(staging) ==> opts.staged_at() == staging@,
        opts.staging is None ==> opts.staged_at() == default_staging_parts(opts.dest@),
{
}

} // verus!
