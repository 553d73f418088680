//! Paths as the sequences of components that a Unix file system takes them
//! apart into.
//!
//! Two spellings of one path, such as `a//b/` and `a/./b`, are one sequence of
//! components here, as they are one path to the standard library.

use vstd::prelude::*;
use vstd::string::*;
use vstd::utf8::*;

verus! {

/// The separator between the components of a path.
pub const SLASH: u8 = 47;

/// The byte that separates a file's extension from its stem.
pub const DOT: u8 = 46;

/// The bytes of a name that is written as text.
pub open spec fn os(name: &str) -> Seq<u8> {
    encode_utf8(name@)
}

/// The component that an absolute path starts with.
pub open spec fn root_part() -> Seq<u8> {
    seq![SLASH]
}

/// The component that stands for the directory it is in.
pub open spec fn here_part() -> Seq<u8> {
    seq![DOT]
}

/// The component that stands for the directory above.
pub open spec fn up_part() -> Seq<u8> {
    seq![DOT, DOT]
}

/// Where the first separator of `text` stands; its length where it has none.
pub open spec fn first_slash(text: Seq<u8>) -> nat
    decreases text.len(),
{
    if text.len() == 0 || text[0] == SLASH {
        0
    } else {
        1 + first_slash(text.drop_first())
    }
}

/// The names between the separators of `text`, without the empty ones and
/// without those that stand for the directory they are in.
pub open spec fn names(text: Seq<u8>) -> Seq<Seq<u8>>
    decreases text.len(),
    via names_decreases
{
    if text.len() == 0 {
        Seq::empty()
    } else {
        let end = first_slash(text) as int;
        let head = text.take(end);
        let rest = if end < text.len() {
            names(text.skip(end + 1))
        } else {
            Seq::empty()
        };
        if head.len() == 0 || head == here_part() {
            rest
        } else {
            seq![head] + rest
        }
    }
}

#[via_fn]
proof fn names_decreases(text: Seq<u8>) {
    lemma_first_slash(text);
}

/// The components of the path that `text` spells.
pub open spec fn path_parts(text: Seq<u8>) -> Seq<Seq<u8>> {
    if text.len() > 0 && text[0] == SLASH {
        seq![root_part()] + names(text)
    } else if text.take(first_slash(text) as int) == here_part() {
        seq![here_part()] + names(text)
    } else {
        names(text)
    }
}

/// The names joined by single separators.
pub open spec fn joined_names(parts: Seq<Seq<u8>>) -> Seq<u8>
    decreases parts.len(),
{
    if parts.len() == 0 {
        Seq::empty()
    } else if parts.len() == 1 {
        parts[0]
    } else {
        parts[0] + seq![SLASH] + joined_names(parts.skip(1))
    }
}

/// The shortest spelling of a path.
pub open spec fn path_text(parts: Seq<Seq<u8>>) -> Seq<u8> {
    if parts.len() > 0 && parts[0] == root_part() {
        root_part() + joined_names(parts.skip(1))
    } else {
        joined_names(parts)
    }
}

/// A name that a directory can hold, or the way up from one.
pub open spec fn is_name(name: Seq<u8>) -> bool {
    &&& name.len() > 0
    &&& !name.contains(SLASH)
    &&& name != here_part()
}

/// The sequences of components that some text spells.
pub open spec fn wf_parts(parts: Seq<Seq<u8>>) -> bool {
    forall|i: int|
        0 <= i < parts.len() ==> is_name(#[trigger] parts[i]) || (i == 0 && (parts[i] == root_part()
            || parts[i] == here_part()))
}

/// The last component, where it is a name of its own.
pub open spec fn name_of(parts: Seq<Seq<u8>>) -> Option<Seq<u8>> {
    if parts.len() == 0 || parts.last() == root_part() || parts.last() == here_part()
        || parts.last() == up_part() {
        None
    } else {
        Some(parts.last())
    }
}

/// The path without its last component; the root and the empty path have no
/// parent.
pub open spec fn parent_parts(parts: Seq<Seq<u8>>) -> Option<Seq<Seq<u8>>> {
    if parts.len() == 0 || parts.last() == root_part() {
        None
    } else {
        Some(parts.drop_last())
    }
}

/// The path with its name exchanged, or with one added where it has none.
pub open spec fn renamed_parts(parts: Seq<Seq<u8>>, name: Seq<u8>) -> Seq<Seq<u8>> {
    if name_of(parts) is Some {
        parts.drop_last().push(name)
    } else {
        parts.push(name)
    }
}

/// Whether `base` is `parts` or a directory above it.
pub open spec fn within(parts: Seq<Seq<u8>>, base: Seq<Seq<u8>>) -> bool {
    base.is_prefix_of(parts)
}

/// Where the last `DOT` among the first `upto` bytes of a name stands.
pub open spec fn last_dot(name: Seq<u8>, upto: nat) -> Option<nat>
    decreases upto,
{
    if upto == 0 {
        None
    } else if name[upto - 1] == DOT {
        Some((upto - 1) as nat)
    } else {
        last_dot(name, (upto - 1) as nat)
    }
}

/// What stands behind the last dot of a name; a dot that the name starts with
/// separates nothing.
pub open spec fn extension_of(name: Seq<u8>) -> Option<Seq<u8>> {
    match last_dot(name, name.len()) {
        Some(at) if at > 0 => Some(name.skip(at as int + 1)),
        _ => None,
    }
}

/// A path, as the sequence of its components, and as the text that it was given
/// as, where it was given as one. Paths are the same where their components are.
#[derive(Debug, Eq)]
pub struct FsPath {
    parts: Vec<Vec<u8>>,
    given: Option<Vec<u8>>,
}

impl PartialEq for FsPath {
    fn eq(&self, other: &FsPath) -> (r: bool) {
        self.same(other)
    }
}

impl vstd::std_specs::cmp::PartialEqSpecImpl for FsPath {
    open spec fn obeys_eq_spec() -> bool {
        true
    }

    open spec fn eq_spec(&self, other: &FsPath) -> bool {
        self@ == other@
    }
}

/// The views of a list of paths.
pub open spec fn views(paths: Seq<FsPath>) -> Seq<Seq<Seq<u8>>> {
    Seq::new(paths.len(), |i: int| paths[i]@)
}

/// Whether two byte strings are the same.
pub fn same_bytes(a: &[u8], b: &[u8]) -> (r: bool)
    ensures
        r == (a@ == b@),
{
    if a.len() != b.len() {
        return false;
    }
    let mut i: usize = 0;
    while i < a.len()
        invariant
            a.len() == b.len(),
            i <= a.len(),
            forall|j: int| 0 <= j < i ==> a@[j] == b@[j],
        decreases a.len() - i,
    {
        if a[i] != b[i] {
            return false;
        }
        i = i + 1;
    }
    assert(a@ =~= b@);
    true
}

/// A copy of a byte string.
pub fn copy_bytes(a: &[u8]) -> (r: Vec<u8>)
    ensures
        r@ == a@,
{
    let mut out: Vec<u8> = Vec::new();
    let mut i: usize = 0;
    while i < a.len()
        invariant
            i <= a.len(),
            out@ == a@.take(i as int),
        decreases a.len() - i,
    {
        out.push(a[i]);
        i = i + 1;
        assert(out@ =~= a@.take(i as int));
    }
    assert(a@.take(a@.len() as int) =~= a@);
    out
}

impl FsPath {
    /// The components of the path.
    pub closed spec fn view(&self) -> Seq<Seq<u8>> {
        Seq::new(self.parts@.len(), |i: int| self.parts@[i]@)
    }

    /// How the path is spelled: as it was given, or else as short as it can be.
    pub closed spec fn spelling(&self) -> Seq<u8> {
        match self.given {
            Some(text) => text@,
            None => path_text(self@),
        }
    }

    /// The spelling reads as the path.
    pub open spec fn is_spelled(&self) -> bool {
        path_parts(self.spelling()) == self@
    }

    /// The path of no components, which is where relative paths start.
    pub fn empty() -> (r: FsPath)
        ensures
            r@ == Seq::<Seq<u8>>::empty(),
            r.spelling() == path_text(r@),
    {
        let r = FsPath { parts: Vec::new(), given: None };
        assert(r@ =~= Seq::<Seq<u8>>::empty());
        r
    }

    /// The path of one component that stands for the directory it is in.
    pub fn here() -> (r: FsPath)
        ensures
            r@ == seq![here_part()],
            r.spelling() == path_text(r@),
    {
        let mut part: Vec<u8> = Vec::new();
        part.push(DOT);
        let mut r = FsPath { parts: Vec::new(), given: None };
        assert(part@ =~= here_part());
        r.parts.push(part);
        assert(r@ =~= seq![here_part()]);
        r
    }

    /// How many components the path has.
    pub fn len(&self) -> (r: usize)
        ensures
            r == self@.len(),
    {
        self.parts.len()
    }

    /// Whether two paths have the same components.
    pub fn same(&self, other: &FsPath) -> (r: bool)
        ensures
            r == (self@ == other@),
    {
        if self.parts.len() != other.parts.len() {
            assert(self@.len() != other@.len());
            return false;
        }
        let r = self.starts_with(other);
        assert(r ==> self@ =~= other@);
        r
    }

    /// Whether `base` is this path or a directory above it.
    pub fn starts_with(&self, base: &FsPath) -> (r: bool)
        ensures
            r == within(self@, base@),
    {
        if base.parts.len() > self.parts.len() {
            return false;
        }
        let mut i: usize = 0;
        while i < base.parts.len()
            invariant
                i <= base.parts.len() <= self.parts.len(),
                forall|j: int| 0 <= j < i ==> self@[j] == base@[j],
            decreases base.parts.len() - i,
        {
            if !same_bytes(self.parts[i].as_slice(), base.parts[i].as_slice()) {
                assert(self@[i as int] != base@[i as int]);
                assert(self@.take(base@.len() as int)[i as int] == self@[i as int]);
                return false;
            }
            i = i + 1;
        }
        assert(base@ =~= self@.take(base@.len() as int));
        true
    }

    /// The last component, where it is a name of its own.
    pub fn file_name(&self) -> (r: Option<&Vec<u8>>)
        ensures
            r is Some == name_of(self@) is Some,
            r matches Some(name) ==> name_of(self@) == Some(name@),
    {
        let n = self.parts.len();
        if n == 0 {
            return None;
        }
        let last = &self.parts[n - 1];
        assert(self@.last() == last@);
        let len = last.len();
        let nameless = (len == 1 && (last[0] == SLASH || last[0] == DOT)) || (len == 2 && last[0]
            == DOT && last[1] == DOT);
        assert(nameless == (last@ == root_part() || last@ == here_part() || last@ == up_part())) by {
            if len == 1 {
                assert(last@ =~= seq![last@[0]]);
            }
            if len == 2 {
                assert(last@ =~= seq![last@[0], last@[1]]);
            }
        }
        if nameless {
            None
        } else {
            Some(last)
        }
    }

    /// Whether the last component is the name `name`.
    pub fn is_named(&self, name: &str) -> (r: bool)
        ensures
            r == (name_of(self@) == Some(os(name))),
    {
        match self.file_name() {
            Some(own) => same_bytes(own.as_slice(), name.as_bytes()),
            None => false,
        }
    }

    /// The path without its last component.
    pub fn parent(&self) -> (r: Option<FsPath>)
        ensures
            r is Some == parent_parts(self@) is Some,
            r matches Some(parent) ==> parent_parts(self@) == Some(parent@) && parent.spelling()
                == path_text(parent@),
    {
        let n = self.parts.len();
        if n == 0 {
            return None;
        }
        let last = &self.parts[n - 1];
        assert(self@.last() == last@);
        if last.len() == 1 && last[0] == SLASH {
            assert(last@ =~= root_part());
            return None;
        }
        assert(last@ != root_part());
        Some(self.take(n - 1))
    }

    fn take(&self, n: usize) -> (r: FsPath)
        requires
            n <= self@.len(),
        ensures
            r@ == self@.take(n as int),
            r.given is None,
    {
        let mut parts: Vec<Vec<u8>> = Vec::new();
        let mut i: usize = 0;
        while i < n
            invariant
                i <= n <= self.parts.len(),
                parts.len() == i,
                forall|j: int| 0 <= j < i ==> (#[trigger] parts@[j])@ == self@[j],
            decreases n - i,
        {
            parts.push(copy_bytes(self.parts[i].as_slice()));
            i = i + 1;
        }
        let r = FsPath { parts, given: None };
        assert(r@ =~= self@.take(n as int));
        r
    }

    /// The path of something that the directory at this path holds.
    pub fn child(&self, name: &[u8]) -> (r: FsPath)
        ensures
            r@ == self@.push(name@),
            r.spelling() == path_text(r@),
    {
        let mut r = self.take(self.parts.len());
        assert(r@ =~= self@);
        r.parts.push(copy_bytes(name));
        assert(r@ =~= self@.push(name@));
        r
    }

    /// The path of something that the directory at this path holds under a
    /// name that is written as text.
    pub fn join(&self, name: &str) -> (r: FsPath)
        ensures
            r@ == self@.push(os(name)),
            r.spelling() == path_text(r@),
    {
        self.child(name.as_bytes())
    }

    /// The path that `relative` leads to from here.
    pub fn descend(&self, relative: &FsPath) -> (r: FsPath)
        ensures
            r@ == self@ + relative@,
            r.spelling() == path_text(r@),
    {
        let mut r = self.take(self.parts.len());
        assert(r@ =~= self@);
        let mut i: usize = 0;
        while i < relative.parts.len()
            invariant
                i <= relative.parts.len(),
                r@ == self@ + relative@.take(i as int),
                r.given is None,
            decreases relative.parts.len() - i,
        {
            let ghost before = r@;
            r.parts.push(copy_bytes(relative.parts[i].as_slice()));
            assert(r@ =~= before.push(relative@[i as int]));
            i = i + 1;
            assert(r@ =~= self@ + relative@.take(i as int));
        }
        assert(relative@.take(relative@.len() as int) =~= relative@);
        r
    }

    /// The path with its name exchanged, or with one added where it has none.
    pub fn with_file_name(&self, name: &[u8]) -> (r: FsPath)
        ensures
            r@ == renamed_parts(self@, name@),
            r.spelling() == path_text(r@),
    {
        if self.file_name().is_some() {
            let base = self.take(self.parts.len() - 1);
            assert(base@ =~= self@.drop_last());
            base.child(name)
        } else {
            self.child(name)
        }
    }

    /// Whether the path has a name, and that name the extension `extension`.
    pub fn has_extension(&self, extension: &str) -> (r: bool)
        ensures
            r == (name_of(self@) matches Some(name) && extension_of(name) == Some(os(extension))),
    {
        let name = match self.file_name() {
            Some(name) => name,
            None => {
                return false;
            },
        };
        let mut i: usize = name.len();
        while i > 0
            invariant
                i <= name.len(),
                name_of(self@) == Some(name@),
                last_dot(name@, name@.len()) == last_dot(name@, i as nat),
            decreases i,
        {
            if name[i - 1] == DOT {
                if i == 1 {
                    return false;
                }
                let (_, tail) = name.as_slice().split_at(i);
                assert(tail@ =~= name@.skip(i as int));
                return same_bytes(tail, extension.as_bytes());
            }
            i = i - 1;
        }
        false
    }

    /// Whether some component is the name `name`.
    pub fn has_part(&self, name: &str) -> (r: bool)
        ensures
            r == self@.contains(os(name)),
    {
        let mut i: usize = 0;
        while i < self.parts.len()
            invariant
                i <= self.parts.len(),
                forall|j: int| 0 <= j < i ==> self@[j] != os(name),
            decreases self.parts.len() - i,
        {
            if same_bytes(self.parts[i].as_slice(), name.as_bytes()) {
                assert(self@[i as int] == os(name));
                return true;
            }
            i = i + 1;
        }
        false
    }

    /// Whether the path is the one component `name`.
    pub fn is_only(&self, name: &str) -> (r: bool)
        ensures
            r == (self@ == seq![os(name)]),
    {
        if self.parts.len() != 1 {
            assert(self@.len() != 1);
            return false;
        }
        let r = same_bytes(self.parts[0].as_slice(), name.as_bytes());
        assert(r ==> self@ =~= seq![os(name)]);
        assert(self@ == seq![os(name)] ==> self@[0] == os(name));
        r
    }
}

impl FsPath {
    /// Takes the path that `text` spells apart into its components.
    pub fn parse(text: &[u8]) -> (r: FsPath)
        ensures
            r@ == path_parts(text@),
            r.spelling() == text@,
            wf_parts(r@),
    {
        let mut r = FsPath::parse_parts(text);
        let ghost parts = r@;
        r.given = Some(copy_bytes(text));
        assert(r@ =~= parts);
        r
    }

    fn parse_parts(text: &[u8]) -> (r: FsPath)
        ensures
            r@ == path_parts(text@),
            wf_parts(r@),
    {
        let mut r = FsPath::empty();
        let lead = segment_end(text, 0);
        assert(text@.skip(0) =~= text@);
        if text.len() > 0 && text[0] == SLASH {
            let mut part: Vec<u8> = Vec::new();
            part.push(SLASH);
            assert(part@ =~= root_part());
            r.parts.push(part);
            assert(r@ =~= seq![root_part()]);
        } else if lead == 1 && text[0] == DOT {
            r = FsPath::here();
            assert(text@.take(1) =~= here_part());
        } else {
            assert(text@.take(lead as int) != here_part()) by {
                if text@.take(lead as int) == here_part() {
                    assert(text@.take(lead as int).len() == 1);
                    assert(text@.take(lead as int)[0] == text@[0]);
                }
            }
        }
        let ghost start = r@;
        assert(path_parts(text@) == start + names(text@)) by {
            assert(Seq::<Seq<u8>>::empty() + names(text@) =~= names(text@));
        }
        let mut i: usize = 0;
        while i < text.len()
            invariant
                i <= text.len(),
                path_parts(text@) == r@ + names(text@.skip(i as int)),
            decreases text.len() - i,
        {
            let end = segment_end(text, i);
            let ghost tail = text@.skip(i as int);
            let ghost before = r@;
            proof {
                lemma_first_slash(tail);
                assert(end < text.len() ==> tail.skip(end - i + 1) =~= text@.skip(end + 1));
            }
            let (upto, _) = text.split_at(end);
            let (_, head) = upto.split_at(i);
            assert(head@ =~= tail.take(end - i));
            let here = head.len() == 1 && head[0] == DOT;
            assert(here == (head@ == here_part())) by {
                if here {
                    assert(head@ =~= here_part());
                }
            }
            if head.len() > 0 && !here {
                r.parts.push(copy_bytes(head));
                assert(r@ =~= before.push(head@));
            }
            if end < text.len() {
                i = end + 1;
            } else {
                i = end;
                assert(names(text@.skip(i as int)) =~= Seq::<Seq<u8>>::empty());
            }
            assert(path_parts(text@) =~= r@ + names(text@.skip(i as int)));
        }
        assert(r@ =~= path_parts(text@));
        proof {
            lemma_parsed_is_wf(text@);
        }
        r
    }

    /// The path as it is spelled.
    pub fn to_bytes(&self) -> (r: Vec<u8>)
        ensures
            r@ == self.spelling(),
    {
        match &self.given {
            Some(text) => copy_bytes(text.as_slice()),
            None => self.spell(),
        }
    }

    fn spell(&self) -> (r: Vec<u8>)
        ensures
            r@ == path_text(self@),
    {
        let n = self.parts.len();
        let mut out: Vec<u8> = Vec::new();
        let mut i: usize = 0;
        if n > 0 && self.parts[0].len() == 1 && self.parts[0][0] == SLASH {
            out.push(SLASH);
            assert(self@[0] =~= root_part());
            assert(out@ =~= root_part());
            i = 1;
        } else {
            assert(n > 0 ==> self@[0] != root_part());
            assert(self@.skip(0) =~= self@);
        }
        assert(out@ + joined_names(self@.skip(i as int)) =~= path_text(self@));
        while i < n
            invariant
                i <= n,
                n == self@.len(),
                n == self.parts.len(),
                path_text(self@) == out@ + joined_names(self@.skip(i as int)),
            decreases n - i,
        {
            let ghost before = out@;
            let ghost tail = self@.skip(i as int);
            assert(tail.skip(1) =~= self@.skip(i + 1));
            out.append(&mut copy_bytes(self.parts[i].as_slice()));
            assert(out@ =~= before + tail[0]);
            i = i + 1;
            if i < n {
                out.push(SLASH);
            }
            assert(out@ + joined_names(self@.skip(i as int)) =~= before + joined_names(tail));
        }
        assert(out@ =~= path_text(self@));
        out
    }
}

fn segment_end(text: &[u8], from: usize) -> (end: usize)
    requires
        from <= text.len(),
    ensures
        end == from + first_slash(text@.skip(from as int)),
        end <= text.len(),
{
    let mut end: usize = from;
    while end < text.len() && text[end] != SLASH
        invariant
            from <= end <= text.len(),
            first_slash(text@.skip(from as int)) == (end - from) + first_slash(
                text@.skip(end as int),
            ),
        decreases text.len() - end,
    {
        assert(text@.skip(end as int).drop_first() =~= text@.skip(end + 1));
        end = end + 1;
    }
    end
}

impl Clone for FsPath {
    fn clone(&self) -> (r: Self)
        ensures
            r@ == self@,
            r.spelling() == self.spelling(),
    {
        let mut r = self.take(self.parts.len());
        let ghost parts = r@;
        r.given = match &self.given {
            Some(text) => Some(copy_bytes(text.as_slice())),
            None => None,
        };
        assert(r@ =~= parts);
        assert(r@ =~= self@);
        r
    }
}

/// No separator stands before the first one.
pub proof fn lemma_first_slash(text: Seq<u8>)
    ensures
        first_slash(text) <= text.len(),
        first_slash(text) < text.len() ==> text[first_slash(text) as int] == SLASH,
        forall|i: int| 0 <= i < first_slash(text) ==> text[i] != SLASH,
    decreases text.len(),
{
    if text.len() > 0 && text[0] != SLASH {
        lemma_first_slash(text.drop_first());
        assert forall|i: int| 0 <= i < first_slash(text) implies text[i] != SLASH by {
            if i > 0 {
                assert(text[i] == text.drop_first()[i - 1]);
            }
        }
    }
}

proof fn lemma_names_are_names(text: Seq<u8>)
    ensures
        forall|i: int| 0 <= i < names(text).len() ==> is_name(#[trigger] names(text)[i]),
    decreases text.len(),
{
    if text.len() > 0 {
        lemma_first_slash(text);
        let end = first_slash(text) as int;
        let head = text.take(end);
        assert(!head.contains(SLASH));
        let rest = if end < text.len() {
            lemma_names_are_names(text.skip(end + 1));
            names(text.skip(end + 1))
        } else {
            Seq::empty()
        };
        assert forall|i: int| 0 <= i < names(text).len() implies is_name(
            #[trigger] names(text)[i],
        ) by {
            if head.len() == 0 || head == here_part() {
                assert(names(text) == rest);
            } else {
                assert(names(text) == seq![head] + rest);
                if i > 0 {
                    assert(names(text)[i] == rest[i - 1]);
                }
            }
        }
    }
}

proof fn lemma_parsed_is_wf(text: Seq<u8>)
    ensures
        wf_parts(path_parts(text)),
{
    lemma_names_are_names(text);
}

proof fn lemma_first_slash_of(head: Seq<u8>, tail: Seq<u8>)
    requires
        !head.contains(SLASH),
        tail.len() == 0 || tail[0] == SLASH,
    ensures
        first_slash(head + tail) == head.len(),
    decreases head.len(),
{
    let text = head + tail;
    if head.len() == 0 {
        assert(text =~= tail);
    } else {
        assert(text[0] == head[0]);
        assert(head.contains(head[0]));
        assert(text.drop_first() =~= head.drop_first() + tail);
        assert(!head.drop_first().contains(SLASH)) by {
            if head.drop_first().contains(SLASH) {
                let i = choose|i: int|
                    0 <= i < head.drop_first().len() && head.drop_first()[i] == SLASH;
                assert(head[i + 1] == SLASH);
            }
        }
        lemma_first_slash_of(head.drop_first(), tail);
    }
}

proof fn lemma_names_of_joined(parts: Seq<Seq<u8>>)
    requires
        forall|i: int| 0 <= i < parts.len() ==> is_name(#[trigger] parts[i]),
    ensures
        names(joined_names(parts)) == parts,
        parts.len() > 0 ==> first_slash(joined_names(parts)) == parts[0].len(),
        parts.len() > 0 ==> joined_names(parts).len() >= parts[0].len(),
        parts.len() > 0 ==> joined_names(parts).take(parts[0].len() as int) == parts[0],
    decreases parts.len(),
{
    let text = joined_names(parts);
    if parts.len() == 0 {
        assert(names(text) =~= parts);
    } else if parts.len() == 1 {
        lemma_first_slash_of(parts[0], Seq::empty());
        assert(parts[0] + Seq::<u8>::empty() =~= parts[0]);
        assert(text.take(text.len() as int) =~= text);
        assert(names(text) =~= parts);
    } else {
        let rest = parts.skip(1);
        assert forall|i: int| 0 <= i < rest.len() implies is_name(#[trigger] rest[i]) by {
            assert(rest[i] == parts[i + 1]);
        }
        lemma_names_of_joined(rest);
        let tail = seq![SLASH] + joined_names(rest);
        assert(text =~= parts[0] + tail);
        lemma_first_slash_of(parts[0], tail);
        assert(text.take(parts[0].len() as int) =~= parts[0]);
        assert(text.skip(parts[0].len() as int + 1) =~= joined_names(rest));
        assert(names(text) =~= parts);
    }
}

/// A path that was spelled out as short as it can be is read back as the same
/// path.
pub proof fn law_spelling_round_trip(parts: Seq<Seq<u8>>)
    requires
        wf_parts(parts),
    ensures
        path_parts(path_text(parts)) == parts,
{
    let text = path_text(parts);
    if parts.len() == 0 {
        assert(path_parts(text) =~= parts);
    } else if parts[0] == root_part() || parts[0] == here_part() {
        let rest = parts.skip(1);
        assert forall|i: int| 0 <= i < rest.len() implies is_name(#[trigger] rest[i]) by {
            assert(rest[i] == parts[i + 1]);
        }
        lemma_names_of_joined(rest);
        let body = joined_names(rest);
        if parts[0] == root_part() {
            assert(text.take(0).len() == 0);
            assert(text.skip(1) =~= body);
            assert(names(text) == names(body));
            assert(path_parts(text) =~= parts);
        } else {
            let tail = if rest.len() == 0 {
                Seq::<u8>::empty()
            } else {
                seq![SLASH] + body
            };
            assert(text =~= here_part() + tail) by {
                if rest.len() == 0 {
                    assert(parts =~= seq![here_part()]);
                }
            }
            lemma_first_slash_of(here_part(), tail);
            assert(text.take(1) =~= here_part());
            if rest.len() > 0 {
                assert(text.skip(2) =~= body);
            } else {
                assert(names(text) =~= rest);
            }
            assert(path_parts(text) =~= parts);
        }
    } else {
        lemma_names_of_joined(parts);
        assert(text == joined_names(parts));
        assert(parts[0].len() > 0);
        assert(text[0] == parts[0][0]) by {
            assert(text.take(parts[0].len() as int)[0] == text[0]);
        }
        assert(parts[0].contains(parts[0][0]));
    }
}

} // verus!
