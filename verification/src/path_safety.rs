//! Paths as texts with `/` between their parts.

use crate::text::{
    chars_of, find_char, first_char, has_prefix, lemma_first_char_in_bounds, opt_text, same_text,
    string_of, texts,
};
use vstd::prelude::*;
use vstd::string::*;

verus! {

/// Whether a path starts at the root of the file system.
pub open spec fn is_absolute(path: Seq<char>) -> bool {
    path.len() > 0 && path[0] == '/'
}

/// The path `child` as seen from `base`.
pub open spec fn join_path(base: Seq<char>, child: Seq<char>) -> Seq<char> {
    if is_absolute(child) {
        child
    } else if base.len() > 0 && base.last() != '/' {
        base.push('/') + child
    } else {
        base + child
    }
}

/// Whether a path starts at the root of the file system.
pub fn path_is_absolute(path: &str) -> (r: bool)
    ensures
        r == is_absolute(path@),
{
    path.unicode_len() > 0 && path.get_char(0) == '/'
}

/// The path `child` as seen from `base`.
pub fn joined_path(base: &str, child: &str) -> (r: String)
    ensures
        r@ == join_path(base@, child@),
{
    if path_is_absolute(child) {
        return child.to_string();
    }
    let length: usize = base.unicode_len();
    let mut out = base.to_string();
    if length > 0 && base.get_char(length - 1) != '/' {
        out.push('/');
    }
    out.append(child);
    out
}

// ---------------------------------------------------------------------------
// Components
// ---------------------------------------------------------------------------

/// A part of a path as a list: nothing for an empty part or a single dot.
pub open spec fn kept_part(part: Seq<char>) -> Seq<Seq<char>> {
    if part.len() == 0 || part == "."@ {
        Seq::empty()
    } else {
        seq![part]
    }
}

/// The parts of a path between its slashes, without empty parts and single dots.
pub open spec fn path_parts(path: Seq<char>) -> Seq<Seq<char>>
    decreases path.len(),
{
    match first_char(path, '/') {
        Some(i) => if 0 <= i < path.len() {
            kept_part(path.take(i)) + path_parts(path.skip(i + 1))
        } else {
            kept_part(path)
        },
        None => kept_part(path),
    }
}

/// Whether a path starts at the current directory by a dot.
pub open spec fn starts_with_dot(path: Seq<char>) -> bool {
    path.len() > 0 && path[0] == '.' && (path.len() == 1 || path[1] == '/')
}

/// The components of a path: the root or a leading dot, and then its parts.
pub open spec fn components(path: Seq<char>) -> Seq<Seq<char>> {
    if is_absolute(path) {
        seq!["/"@] + path_parts(path)
    } else if starts_with_dot(path) {
        seq!["."@] + path_parts(path)
    } else {
        path_parts(path)
    }
}

/// The last component of a path that is a name.
pub open spec fn file_name(path: Seq<char>) -> Option<Seq<char>> {
    let parts = components(path);
    if parts.len() == 0 || parts.last() == "/"@ || parts.last() == "."@ || parts.last() == ".."@ {
        None
    } else {
        Some(parts.last())
    }
}

/// The parts of a path between its slashes, without empty parts and single dots.
fn split_parts(path: &str) -> (r: Vec<String>)
    ensures
        texts(r@) == path_parts(path@),
{
    let cs = chars_of(path);
    let mut out: Vec<String> = Vec::new();
    let mut start: usize = 0;
    assert(cs@.skip(0) =~= cs@);
    assert(texts(out@) + path_parts(cs@) =~= path_parts(cs@));
    loop
        invariant
            start <= cs@.len(),
            cs@ == path@,
            texts(out@) + path_parts(cs@.skip(start as int)) == path_parts(cs@),
        decreases cs@.len() - start,
    {
        let ghost rest = cs@.skip(start as int);
        let ghost before = texts(out@);
        let length: usize = cs.len();
        match find_char(&cs, start, '/') {
            Some(end) => {
                let part = string_of(&cs, start, end);
                assert(part@ =~= rest.take(end - start));
                assert(end < length);
                push_part(&mut out, part);
                proof {
                    assert(rest.skip(end - start + 1) =~= cs@.skip(end + 1));
                    assert((before + kept_part(part@)) + path_parts(cs@.skip(end + 1)) =~= before
                        + (kept_part(part@) + path_parts(cs@.skip(end + 1))));
                }
                start = end + 1;
            },
            None => {
                let part = string_of(&cs, start, cs.len());
                assert(part@ =~= rest);
                push_part(&mut out, part);
                return out;
            },
        }
    }
}

/// Adds a part of a path to a list, unless it is empty or a single dot.
fn push_part(out: &mut Vec<String>, part: String)
    ensures
        texts(final(out)@) == texts(old(out)@) + kept_part(part@),
{
    if part.as_str().unicode_len() > 0 && !same_text(part.as_str(), ".") {
        out.push(part);
    }
    assert(texts(out@) =~= texts(old(out)@) + kept_part(part@));
}

/// The components of a path.
pub fn path_components(path: &str) -> (r: Vec<String>)
    ensures
        texts(r@) == components(path@),
{
    let parts = split_parts(path);
    let length: usize = path.unicode_len();
    let mut out: Vec<String> = Vec::new();
    if path_is_absolute(path) {
        out.push("/".to_string());
    } else if length > 0 && path.get_char(0) == '.' && (length == 1 || path.get_char(1) == '/') {
        out.push(".".to_string());
    }
    let ghost head = texts(out@);
    let mut rest = parts;
    out.append(&mut rest);
    proof {
        assert(texts(out@) =~= head + path_parts(path@));
        if is_absolute(path@) {
            assert(head =~= seq!["/"@]);
        } else if starts_with_dot(path@) {
            assert(head =~= seq!["."@]);
        } else {
            assert(texts(out@) =~= path_parts(path@));
        }
    }
    out
}

/// Whether two paths have the same components.
pub fn same_path(a: &str, b: &str) -> (r: bool)
    ensures
        r == (components(a@) == components(b@)),
{
    let left = path_components(a);
    let right = path_components(b);
    if left.len() != right.len() {
        assert(texts(left@).len() != texts(right@).len());
        return false;
    }
    let mut i: usize = 0;
    while i < left.len()
        invariant
            i <= left@.len(),
            left@.len() == right@.len(),
            texts(left@) == components(a@),
            texts(right@) == components(b@),
            forall|j: int| 0 <= j < i ==> left@[j]@ == right@[j]@,
        decreases left@.len() - i,
    {
        if !same_text(left[i].as_str(), right[i].as_str()) {
            assert(texts(left@)[i as int] != texts(right@)[i as int]);
            return false;
        }
        i = i + 1;
    }
    assert(texts(left@) =~= texts(right@));
    true
}

/// The last component of a path that is a name.
pub fn path_file_name(path: &str) -> (r: Option<String>)
    ensures
        opt_text(r) == file_name(path@),
{
    let parts = path_components(path);
    if parts.len() == 0 {
        return None;
    }
    let last = parts[parts.len() - 1].clone();
    assert(last@ == texts(parts@).last());
    if same_text(last.as_str(), "/") || same_text(last.as_str(), ".") || same_text(
        last.as_str(),
        "..",
    ) {
        None
    } else {
        Some(last)
    }
}

// ---------------------------------------------------------------------------
// Below a directory
// ---------------------------------------------------------------------------

/// Whether one path is another or lies below it, by its text.
pub open spec fn lies_within(path: Seq<char>, root: Seq<char>) -> bool {
    root.push('/').is_prefix_of(path.push('/'))
}

/// Whether one path is another or lies below it, by its text.
pub fn is_within(path: &str, root: &str) -> (r: bool)
    ensures
        r == lies_within(path@, root@),
{
    let mut inner = path.to_string();
    inner.push('/');
    let mut outer = root.to_string();
    outer.push('/');
    has_prefix(inner.as_str(), outer.as_str())
}

/// The names that the parts of a path lead down by from a directory, read one by
/// one: two dots go back up by one name, and one dot stays. There are none where the
/// parts lead out of the directory, be it only on the way.
pub open spec fn names_below(parts: Seq<Seq<char>>) -> Option<Seq<Seq<char>>>
    decreases parts.len(),
{
    if parts.len() == 0 {
        Some(Seq::empty())
    } else {
        match names_below(parts.drop_last()) {
            None => None,
            Some(names) => if parts.last() == ".."@ {
                if names.len() == 0 {
                    None
                } else {
                    Some(names.drop_last())
                }
            } else if parts.last() == "."@ {
                Some(names)
            } else {
                Some(names.push(parts.last()))
            },
        }
    }
}

/// Whether the parts of a path stay in a directory and end below it.
pub open spec fn leads_down(parts: Seq<Seq<char>>) -> bool {
    names_below(parts) matches Some(names) && names.len() > 0
}

/// Once the parts have led out of the directory, no more of them lead back.
proof fn lemma_no_way_back(parts: Seq<Seq<char>>, n: int)
    requires
        0 <= n <= parts.len(),
        names_below(parts.take(n)) is None,
    ensures
        names_below(parts) is None,
    decreases parts.len() - n,
{
    if n == parts.len() {
        assert(parts.take(n) =~= parts);
    } else {
        assert(parts.take(n + 1).drop_last() =~= parts.take(n));
        lemma_no_way_back(parts, n + 1);
    }
}

/// Whether a path stays in a directory and ends below it, read part by part behind
/// as many components as `root` has.
pub open spec fn goes_down(path: Seq<char>, root: Seq<char>) -> bool {
    let depth = components(root).len() as int;
    depth <= components(path).len() && leads_down(components(path).skip(depth))
}

/// Whether a path stays in a directory and ends below it, read part by part behind
/// as many components as `root` has.
pub fn path_goes_down(path: &str, root: &str) -> (r: bool)
    ensures
        r == goes_down(path@, root@),
{
    let parts = path_components(path);
    let outer = path_components(root);
    let start: usize = outer.len();
    let ghost all = texts(parts@);
    assert(texts(outer@).len() == start);
    assert(all.len() == parts@.len());
    if start > parts.len() {
        return false;
    }
    let ghost rest = all.skip(start as int);
    let mut depth: usize = 0;
    let mut i: usize = start;
    assert(rest.take(0) =~= Seq::empty());
    while i < parts.len()
        invariant
            start <= i <= parts@.len(),
            all == texts(parts@),
            all == components(path@),
            start == components(root@).len(),
            rest == all.skip(start as int),
            depth <= i - start,
            names_below(rest.take(i - start)) matches Some(names) && names.len() == depth,
        decreases parts@.len() - i,
    {
        let ghost n = i - start;
        assert(rest[n] == parts@[i as int]@);
        assert(rest.take(n + 1).drop_last() =~= rest.take(n));
        assert(rest.take(n + 1).last() == rest[n]);
        if same_text(parts[i].as_str(), "..") {
            if depth == 0 {
                proof {
                    lemma_no_way_back(rest, n + 1);
                }
                return false;
            }
            depth = depth - 1;
        } else if !same_text(parts[i].as_str(), ".") {
            depth = depth + 1;
        }
        i = i + 1;
    }
    assert(rest.take(i - start) =~= rest);
    depth > 0
}

/// Whether a path lies below a directory: it lies within it by its text, and read
/// part by part it does not leave the directory, nor end at it.
pub open spec fn lies_below(path: Seq<char>, root: Seq<char>) -> bool {
    lies_within(path, root) && goes_down(path, root)
}

/// Whether a path lies below a directory.
pub fn is_below(path: &str, root: &str) -> (r: bool)
    ensures
        r == lies_below(path@, root@),
{
    is_within(path, root) && path_goes_down(path, root)
}

/// Whether a path begins with the components of a directory, but leaves it or ends
/// at it.
pub open spec fn climbs(path: Seq<char>, root: Seq<char>) -> bool {
    components(root).is_prefix_of(components(path)) && !goes_down(path, root)
}

/// Whether a path begins with the components of a directory, but leaves it or ends
/// at it.
pub fn path_climbs(path: &str, root: &str) -> (r: bool)
    ensures
        r == climbs(path@, root@),
{
    let parts = path_components(path);
    let outer = path_components(root);
    let ghost all = texts(parts@);
    let ghost front = texts(outer@);
    assert(all.len() == parts@.len());
    assert(front.len() == outer@.len());
    if outer.len() > parts.len() {
        return false;
    }
    let mut i: usize = 0;
    while i < outer.len()
        invariant
            i <= outer@.len() <= parts@.len(),
            all == texts(parts@),
            front == texts(outer@),
            all == components(path@),
            front == components(root@),
            forall|j: int| 0 <= j < i ==> #[trigger] front[j] == all[j],
        decreases outer@.len() - i,
    {
        assert(front[i as int] == outer@[i as int]@);
        assert(all[i as int] == parts@[i as int]@);
        if !same_text(outer[i].as_str(), parts[i].as_str()) {
            assert(front[i as int] != all.subrange(0, front.len() as int)[i as int]);
            return false;
        }
        i = i + 1;
    }
    assert(front =~= all.subrange(0, front.len() as int));
    !path_goes_down(path, root)
}

// ---------------------------------------------------------------------------
// Following links
// ---------------------------------------------------------------------------

/// Why a path could not be followed.
#[derive(Debug, PartialEq, Eq)]
pub struct PathSafetyError {
    path: String,
    source: String,
}

/// The message for a path that could not be followed.
pub open spec fn path_failure(path: Seq<char>, source: Seq<char>) -> Seq<char> {
    "path_canonicalize_failed: "@ + path + " ("@ + source + ")"@
}

impl View for PathSafetyError {
    type V = (Seq<char>, Seq<char>);

    closed spec fn view(&self) -> (Seq<char>, Seq<char>) {
        (self.path@, self.source@)
    }
}

impl PathSafetyError {
    /// The error of the file system at a path.
    pub fn new(path: String, source: String) -> (r: PathSafetyError)
        ensures
            r@ == (path@, source@),
    {
        PathSafetyError { path, source }
    }

    /// The message of the error.
    pub fn message(&self) -> (r: String)
        ensures
            r@ == path_failure(self@.0, self@.1),
    {
        "path_canonicalize_failed: ".to_string().concat(self.path.as_str()).concat(" (").concat(
            self.source.as_str(),
        ).concat(")")
    }
}

/// What stands at a path, as the file system says without following it.
#[derive(Debug, PartialEq, Eq)]
pub enum Probe {
    Symlink(String),
    UnreadableLink(String),
    Present,
    Missing,
    Failed(String),
}

/// The model of what stands at a path.
pub enum ProbeModel {
    Symlink(Seq<char>),
    UnreadableLink(Seq<char>),
    Present,
    Missing,
    Failed(Seq<char>),
}

impl View for Probe {
    type V = ProbeModel;

    open spec fn view(&self) -> ProbeModel {
        match *self {
            Probe::Symlink(target) => ProbeModel::Symlink(target@),
            Probe::UnreadableLink(error) => ProbeModel::UnreadableLink(error@),
            Probe::Present => ProbeModel::Present,
            Probe::Missing => ProbeModel::Missing,
            Probe::Failed(error) => ProbeModel::Failed(error@),
        }
    }
}

/// A path on its way to its canonical form: what has been resolved, and the
/// parts that have not been looked at.
#[verifier::ext_equal]
pub struct Walk {
    pub resolved: Seq<char>,
    pub remaining: Seq<Seq<char>>,
}

/// The path with the parts joined to it one by one.
pub open spec fn join_all(base: Seq<char>, parts: Seq<Seq<char>>) -> Seq<char>
    decreases parts.len(),
{
    if parts.len() == 0 {
        base
    } else {
        join_all(join_path(base, parts[0]), parts.drop_first())
    }
}

/// The path as seen from the working directory, or from a dot where that is
/// not known.
pub open spec fn absolute_path(path: Seq<char>, working_dir: Option<Seq<char>>) -> Seq<char> {
    if is_absolute(path) {
        path
    } else {
        match working_dir {
            Some(dir) => join_path(dir, path),
            None => join_path("."@, path),
        }
    }
}

/// The start of the way to the canonical form.
pub open spec fn walk_start(path: Seq<char>, working_dir: Option<Seq<char>>) -> Walk {
    let parts = components(absolute_path(path, working_dir));
    if parts.len() == 0 {
        Walk { resolved: Seq::empty(), remaining: Seq::empty() }
    } else {
        Walk { resolved: parts[0], remaining: parts.skip(1) }
    }
}

/// The path to look at next.
pub open spec fn walk_candidate(walk: Walk) -> Option<Seq<char>> {
    if walk.remaining.len() == 0 {
        None
    } else {
        Some(join_path(walk.resolved, walk.remaining[0]))
    }
}

/// One step of the way: a link leads to its target, with the same parts left; a
/// file or directory is passed; where nothing exists the rest is taken as it
/// stands; any other answer is an error.
pub open spec fn walk_step(walk: Walk, probe: ProbeModel) -> Result<Walk, (Seq<char>, Seq<char>)> {
    let candidate = join_path(walk.resolved, walk.remaining[0]);
    match probe {
        ProbeModel::Symlink(target) => Ok(
            Walk { resolved: join_path(walk.resolved, target), remaining: walk.remaining },
        ),
        ProbeModel::UnreadableLink(error) => Err((candidate, error)),
        ProbeModel::Present => Ok(
            Walk { resolved: candidate, remaining: walk.remaining.drop_first() },
        ),
        ProbeModel::Missing => Ok(
            Walk {
                resolved: join_all(walk.resolved, walk.remaining),
                remaining: Seq::empty(),
            },
        ),
        ProbeModel::Failed(error) => Err((candidate, error)),
    }
}

/// A path on its way to its canonical form.
pub struct Canonicalizer {
    resolved: String,
    remaining: Vec<String>,
    index: usize,
}

impl View for Canonicalizer {
    type V = Walk;

    closed spec fn view(&self) -> Walk {
        Walk {
            resolved: self.resolved@,
            remaining: texts(self.remaining@.skip(self.index as int)),
        }
    }
}

impl Canonicalizer {
    #[verifier::type_invariant]
    closed spec fn in_range(self) -> bool {
        self.index <= self.remaining@.len()
    }

    /// The start of the way to the canonical form.
    pub fn start(path: &str, working_dir: Option<&str>) -> (r: Canonicalizer)
        ensures
            r@ == walk_start(path@, crate::text::opt_str_text(working_dir)),
    {
        let absolute = if path_is_absolute(path) {
            path.to_string()
        } else {
            match working_dir {
                Some(dir) => joined_path(dir, path),
                None => joined_path(".", path),
            }
        };
        let mut parts = path_components(absolute.as_str());
        assert(texts(parts@).len() == parts@.len());
        if parts.len() == 0 {
            let none: Vec<String> = Vec::new();
            assert(texts(none@.skip(0)) =~= Seq::empty());
            return Canonicalizer { resolved: String::new(), remaining: none, index: 0 };
        }
        let ghost all = parts@;
        let resolved = parts.remove(0);
        proof {
            assert(resolved@ == texts(all)[0]);
            assert(texts(parts@.skip(0)) =~= texts(all).skip(1));
        }
        Canonicalizer { resolved, remaining: parts, index: 0 }
    }

    /// The path to look at next, or nothing at the end of the way.
    pub fn candidate(&self) -> (r: Option<String>)
        ensures
            opt_text(r) == walk_candidate(self@),
    {
        proof {
            use_type_invariant(self);
        }
        assert(self@.remaining.len() == self.remaining@.len() - self.index);
        if self.index < self.remaining.len() {
            assert(self@.remaining[0] == self.remaining@[self.index as int]@);
            Some(joined_path(self.resolved.as_str(), self.remaining[self.index].as_str()))
        } else {
            None
        }
    }

    /// Goes on with what stands at the candidate.
    pub fn step(self, probe: Probe) -> (r: Result<Canonicalizer, PathSafetyError>)
        requires
            walk_candidate(self@) is Some,
        ensures
            match r {
                Ok(next) => walk_step(self@, probe@) == Ok::<Walk, (Seq<char>, Seq<char>)>(next@),
                Err(error) => walk_step(self@, probe@) == Err::<Walk, (Seq<char>, Seq<char>)>(
                    error@,
                ),
            },
    {
        proof {
            use_type_invariant(&self);
            assert(self@.remaining.len() == self.remaining@.len() - self.index);
            assert(self@.remaining[0] == self.remaining@[self.index as int]@);
        }
        let length: usize = self.remaining.len();
        assert(self.index < length);
        let candidate = joined_path(self.resolved.as_str(), self.remaining[self.index].as_str());
        match probe {
            Probe::Symlink(target) => {
                let resolved = joined_path(self.resolved.as_str(), target.as_str());
                Ok(Canonicalizer { resolved, remaining: self.remaining, index: self.index })
            },
            Probe::UnreadableLink(error) => Err(PathSafetyError::new(candidate, error)),
            Probe::Present => {
                let next = Canonicalizer {
                    resolved: candidate,
                    remaining: self.remaining,
                    index: self.index + 1,
                };
                assert(next@.remaining =~= self@.remaining.drop_first());
                Ok(next)
            },
            Probe::Missing => {
                let mut resolved = self.resolved;
                let mut i: usize = self.index;
                let ghost goal = join_all(self@.resolved, self@.remaining);
                assert(goal == join_all(resolved@, texts(self.remaining@.skip(i as int))));
                while i < self.remaining.len()
                    invariant
                        i <= self.remaining@.len(),
                        goal == join_all(resolved@, texts(self.remaining@.skip(i as int))),
                    decreases self.remaining@.len() - i,
                {
                    let ghost rest = texts(self.remaining@.skip(i as int));
                    resolved = joined_path(resolved.as_str(), self.remaining[i].as_str());
                    proof {
                        assert(rest[0] == self.remaining@[i as int]@);
                        assert(rest.drop_first() =~= texts(self.remaining@.skip(i + 1)));
                    }
                    i = i + 1;
                }
                let next = Canonicalizer { resolved, remaining: self.remaining, index: i };
                assert(next@.remaining =~= Seq::empty());
                assert(texts(self.remaining@.skip(i as int)) =~= Seq::empty());
                Ok(next)
            },
            Probe::Failed(error) => Err(PathSafetyError::new(candidate, error)),
        }
    }

    /// What has been resolved; at the end of the way, the canonical form.
    pub fn resolved(&self) -> (r: String)
        ensures
            r@ == self@.resolved,
    {
        self.resolved.clone()
    }
}

/// The walk after at most `n` steps through a file system; nothing where a step
/// fails.
pub open spec fn walk_run(files: spec_fn(Seq<char>) -> ProbeModel, walk: Walk, n: nat) -> Option<
    Walk,
>
    decreases n,
{
    if n == 0 || walk.remaining.len() == 0 {
        Some(walk)
    } else {
        match walk_step(walk, files(join_path(walk.resolved, walk.remaining[0]))) {
            Ok(next) => walk_run(files, next, (n - 1) as nat),
            Err(_) => None,
        }
    }
}

/// Whether a file system holds no links and answers every question.
pub open spec fn without_links(files: spec_fn(Seq<char>) -> ProbeModel) -> bool {
    forall|path: Seq<char>| (#[trigger] files(path)) is Present || files(path) is Missing
}

/// Where no links are met, the walk ends after at most as many steps as there
/// are parts, with all parts joined to where it started: what does not exist is
/// kept as it was written.
pub proof fn lemma_walk_without_links(files: spec_fn(Seq<char>) -> ProbeModel, walk: Walk)
    requires
        without_links(files),
    ensures
        walk_run(files, walk, walk.remaining.len()) == Some(
            Walk { resolved: join_all(walk.resolved, walk.remaining), remaining: Seq::empty() },
        ),
    decreases walk.remaining.len(),
{
    if walk.remaining.len() == 0 {
        assert(walk.remaining =~= Seq::empty());
    } else {
        let candidate = join_path(walk.resolved, walk.remaining[0]);
        let probe = files(candidate);
        match walk_step(walk, probe) {
            Ok(next) => {
                if probe is Present {
                    lemma_walk_without_links(files, next);
                } else {
                    assert(walk_run(files, next, (walk.remaining.len() - 1) as nat) == Some(next));
                }
            },
            Err(_) => {},
        }
    }
}

// ---------------------------------------------------------------------------
// Laws of parts
// ---------------------------------------------------------------------------

proof fn lemma_first_slash_of_join(a: Seq<char>, b: Seq<char>)
    ensures
        first_char(a.push('/') + b, '/') == match first_char(a, '/') {
            Some(i) => Some(i),
            None => Some(a.len() as int),
        },
    decreases a.len(),
{
    let whole = a.push('/') + b;
    if a.len() == 0 {
        assert(whole[0] == '/');
    } else {
        assert(whole[0] == a[0]);
        if a[0] != '/' {
            assert(whole.drop_first() =~= a.drop_first().push('/') + b);
            lemma_first_slash_of_join(a.drop_first(), b);
        }
    }
}

/// The parts of two paths with a slash between them are those of the first and
/// then those of the second.
pub proof fn lemma_parts_of_join(a: Seq<char>, b: Seq<char>)
    ensures
        path_parts(a.push('/') + b) == path_parts(a) + path_parts(b),
    decreases a.len(),
{
    let whole = a.push('/') + b;
    lemma_first_slash_of_join(a, b);
    lemma_first_char_in_bounds(a, '/');
    match first_char(a, '/') {
        Some(i) => {
            assert(whole.take(i) =~= a.take(i));
            assert(whole.skip(i + 1) =~= a.skip(i + 1).push('/') + b);
            lemma_parts_of_join(a.skip(i + 1), b);
            assert(kept_part(a.take(i)) + (path_parts(a.skip(i + 1)) + path_parts(b)) =~= (
            kept_part(a.take(i)) + path_parts(a.skip(i + 1))) + path_parts(b));
        },
        None => {
            assert(whole.take(a.len() as int) =~= a);
            assert(whole.skip(a.len() as int + 1) =~= b);
        },
    }
}

/// Whether a text is an ordinary name of a file: not empty, without slashes, and
/// no dot.
pub open spec fn is_name(part: Seq<char>) -> bool {
    part.len() > 0 && part != "."@ && !part.contains('/')
}

proof fn lemma_no_slash(part: Seq<char>)
    requires
        !part.contains('/'),
    ensures
        first_char(part, '/') is None,
{
    lemma_first_char_in_bounds(part, '/');
    match first_char(part, '/') {
        Some(i) => {
            assert(part[i] == '/');
        },
        None => {},
    }
}

/// A name is its own only part.
pub proof fn lemma_parts_of_name(part: Seq<char>)
    requires
        is_name(part),
    ensures
        path_parts(part) == seq![part],
{
    lemma_no_slash(part);
}

/// All parts of a path are names.
pub proof fn lemma_parts_are_names(path: Seq<char>)
    ensures
        forall|i: int| 0 <= i < path_parts(path).len() ==> is_name(#[trigger] path_parts(path)[i]),
    decreases path.len(),
{
    lemma_first_char_in_bounds(path, '/');
    match first_char(path, '/') {
        Some(i) => {
            lemma_parts_are_names(path.skip(i + 1));
            lemma_before_first(path, '/', i);
            let front = kept_part(path.take(i));
            let rest = path_parts(path.skip(i + 1));
            assert forall|j: int| 0 <= j < (front + rest).len() implies is_name(
                #[trigger] (front + rest)[j],
            ) by {
                if j >= front.len() {
                    assert(is_name(rest[j - front.len()]));
                }
            }
        },
        None => {
            lemma_absent(path, '/');
        },
    }
}

proof fn lemma_before_first(s: Seq<char>, c: char, i: int)
    requires
        first_char(s, c) == Some(i),
    ensures
        !s.take(i).contains(c),
    decreases s.len(),
{
    lemma_first_char_in_bounds(s, c);
    if s[0] != c {
        lemma_before_first(s.drop_first(), c, i - 1);
        let front = s.take(i);
        if front.contains(c) {
            let j = choose|j: int| 0 <= j < front.len() && front[j] == c;
            assert(s.drop_first().take(i - 1)[j - 1] == c);
        }
    }
}

proof fn lemma_absent(s: Seq<char>, c: char)
    requires
        first_char(s, c) is None,
    ensures
        !s.contains(c),
    decreases s.len(),
{
    if s.len() > 0 {
        lemma_absent(s.drop_first(), c);
        if s.contains(c) {
            let j = choose|j: int| 0 <= j < s.len() && s[j] == c;
            assert(s.drop_first()[j - 1] == c);
        }
    }
}

/// A name below a path is the last component of the whole.
pub proof fn lemma_components_of_child(path: Seq<char>, name: Seq<char>)
    requires
        path.len() > 0,
        is_name(name),
    ensures
        components(join_path(path, name)) == components(path).push(name),
        name != ".."@ ==> file_name(join_path(path, name)) == Some(name),
{
    reveal_strlit("/");
    reveal_strlit(".");
    let whole = join_path(path, name);
    assert(name[0] != '/') by {
        if name[0] == '/' {
            assert(name.contains('/'));
        }
    }
    lemma_parts_of_name(name);
    if path.last() == '/' {
        let base = path.drop_last();
        assert(base.push('/') =~= path);
        assert(whole =~= base.push('/') + name);
        lemma_parts_of_join(base, name);
        lemma_parts_of_join(base, Seq::empty());
        assert(base.push('/') + Seq::<char>::empty() =~= path);
        assert(path_parts(Seq::empty()) =~= Seq::empty());
        assert(path_parts(base) + path_parts(Seq::empty()) =~= path_parts(base));
    } else {
        assert(whole =~= path.push('/') + name);
        lemma_parts_of_join(path, name);
    }
    assert(path_parts(whole) =~= path_parts(path).push(name));
    assert(whole[0] == path[0]);
    if path.len() > 1 {
        assert(whole[1] == path[1]);
    } else if path[0] == '.' {
        assert(whole[1] == '/');
    }
    assert(components(whole) =~= components(path).push(name));
    assert(components(whole).last() == name);
    if name == "/"@ {
        assert(name[0] == '/');
    }
}

/// Joining one part more to a path goes on from where the others were joined.
pub proof fn lemma_join_all_push(base: Seq<char>, parts: Seq<Seq<char>>, part: Seq<char>)
    ensures
        join_all(base, parts.push(part)) == join_path(join_all(base, parts), part),
    decreases parts.len(),
{
    if parts.len() == 0 {
        assert(parts.push(part).drop_first() =~= Seq::empty());
        assert(join_all(join_path(base, part), Seq::empty()) == join_path(base, part));
    } else {
        assert(parts.push(part).drop_first() =~= parts.drop_first().push(part));
        lemma_join_all_push(join_path(base, parts[0]), parts.drop_first(), part);
    }
}

/// A path joined of names does not end with a slash.
pub proof fn lemma_join_all_end(base: Seq<char>, parts: Seq<Seq<char>>)
    requires
        parts.len() > 0,
        forall|i: int| 0 <= i < parts.len() ==> is_name(#[trigger] parts[i]),
    ensures
        join_all(base, parts).len() > 0,
        join_all(base, parts).last() != '/',
{
    let front = parts.drop_last();
    let part = parts.last();
    assert(parts =~= front.push(part));
    lemma_join_all_push(base, front, part);
    assert(is_name(parts[parts.len() - 1]));
    assert(part.last() != '/') by {
        if part.last() == '/' {
            assert(part[part.len() - 1] == '/');
        }
    }
    let start = join_all(base, front);
    assert(join_path(start, part).last() == part.last());
}

/// The components of a path that lies within a directory, by its text, start with
/// those of the directory.
pub proof fn lemma_components_within(path: Seq<char>, root: Seq<char>)
    requires
        lies_within(path, root),
    ensures
        components(root).len() <= components(path).len(),
        components(path) == components(root) + components(path).skip(
            components(root).len() as int,
        ),
{
    let outer = root.push('/');
    let inner = path.push('/');
    let depth = components(root).len() as int;
    assert(outer =~= inner.subrange(0, outer.len() as int));
    if root.len() == 0 {
        assert(components(root) =~= Seq::empty());
    } else if path.len() == root.len() {
        assert(path =~= root) by {
            assert forall|i: int| 0 <= i < path.len() implies path[i] == root[i] by {
                assert(outer[i] == inner[i]);
            }
        }
    } else {
        assert forall|i: int| 0 <= i <= root.len() implies path[i] == outer[i] by {
            assert(outer[i] == inner[i]);
        }
        let tail = path.skip(root.len() as int + 1);
        assert(path =~= root.push('/') + tail);
        lemma_parts_of_join(root, tail);
        assert(path[0] == root[0]);
        if root.len() > 1 {
            assert(path[1] == root[1]);
        }
        assert(components(path) =~= components(root) + path_parts(tail));
    }
    assert(components(path) =~= components(root) + components(path).skip(depth));
}

/// Names that parts lead down by are names: none of them is a dot or two.
pub proof fn lemma_names_below_are_names(parts: Seq<Seq<char>>)
    ensures
        names_below(parts) matches Some(names) ==> !names.contains("."@) && !names.contains(".."@),
    decreases parts.len(),
{
    if parts.len() > 0 {
        lemma_names_below_are_names(parts.drop_last());
        match (names_below(parts.drop_last()), names_below(parts)) {
            (Some(before), Some(names)) => {
                assert forall|j: int| 0 <= j < names.len() implies names[j] != "."@ && names[j]
                    != ".."@ by {
                    if j < before.len() {
                        assert(before.contains(before[j]));
                    }
                }
            },
            _ => {},
        }
    }
}

/// Parts without two dots or a dot are the names that they lead down by.
pub proof fn lemma_plain_parts_lead_down(parts: Seq<Seq<char>>)
    requires
        !parts.contains(".."@),
        !parts.contains("."@),
    ensures
        names_below(parts) == Some(parts),
    decreases parts.len(),
{
    if parts.len() == 0 {
        assert(parts =~= Seq::empty());
    } else {
        let front = parts.drop_last();
        assert(parts.contains(parts.last()));
        assert forall|j: int| 0 <= j < front.len() implies parts.contains(#[trigger] front[j]) by {
            assert(parts[j] == front[j]);
        }
        lemma_plain_parts_lead_down(front);
        assert(front.push(parts.last()) =~= parts);
    }
}

/// A single part leads down exactly if it is not a dot or two.
pub proof fn lemma_one_part_leads_down(part: Seq<char>)
    ensures
        leads_down(seq![part]) <==> part != "."@ && part != ".."@,
{
    assert(seq![part].drop_last() =~= Seq::empty());
    assert(seq![part].last() == part);
    assert(names_below(Seq::empty()) == Some(Seq::<Seq<char>>::empty()));
}

/// A path below a directory has its components and then more, which lead to a place
/// of at least one name below it.
pub proof fn lemma_below_leads_down(path: Seq<char>, root: Seq<char>)
    requires
        lies_below(path, root),
    ensures
        ({
            let rest = components(path).skip(components(root).len() as int);
            &&& components(path) == components(root) + rest
            &&& names_below(rest) matches Some(names)
            &&& names.len() > 0
            &&& !names.contains("."@)
            &&& !names.contains(".."@)
        }),
{
    lemma_components_within(path, root);
    lemma_names_below_are_names(components(path).skip(components(root).len() as int));
}

/// A dot below a path leads nowhere else.
pub proof fn lemma_components_of_dot(path: Seq<char>)
    requires
        path.len() > 0,
    ensures
        path_parts(join_path(path, "."@)) == path_parts(path),
        components(join_path(path, "."@)) == components(path),
{
    reveal_strlit(".");
    let dot = "."@;
    let whole = join_path(path, dot);
    assert(dot[0] == '.');
    assert(!dot.contains('/')) by {
        if dot.contains('/') {
            let j = choose|j: int| 0 <= j < dot.len() && dot[j] == '/';
        }
    }
    lemma_no_slash(dot);
    assert(path_parts(dot) =~= Seq::empty());
    if path.last() == '/' {
        let base = path.drop_last();
        assert(base.push('/') =~= path);
        assert(whole =~= base.push('/') + dot);
        lemma_parts_of_join(base, dot);
        lemma_parts_of_join(base, Seq::empty());
        assert(base.push('/') + Seq::<char>::empty() =~= path);
        assert(path_parts(Seq::empty()) =~= Seq::empty());
    } else {
        assert(whole =~= path.push('/') + dot);
        lemma_parts_of_join(path, dot);
    }
    assert(path_parts(whole) =~= path_parts(path));
    assert(whole[0] == path[0]);
    if path.len() > 1 {
        assert(whole[1] == path[1]);
    } else if path[0] == '.' {
        assert(whole[1] == '/');
    }
    assert(components(whole) =~= components(path));
}

// ---------------------------------------------------------------------------
// Laws
// ---------------------------------------------------------------------------

/// A path is joined to another behind a slash, of which there is one between them; an
/// absolute path stands by itself.
pub proof fn lemma_joined_paths(base: Seq<char>, child: Seq<char>)
    ensures
        child.len() > 0 && child[0] == '/' ==> join_path(base, child) == child,
        (child.len() == 0 || child[0] != '/') && base.len() == 0 ==> join_path(base, child)
            == child,
        (child.len() == 0 || child[0] != '/') && base.len() > 0 && base.last() == '/' ==> join_path(
            base,
            child,
        ) == base + child,
        (child.len() == 0 || child[0] != '/') && base.len() > 0 && base.last() != '/' ==> join_path(
            base,
            child,
        ) == base.push('/') + child,
        is_absolute(base) <==> base.len() > 0 && base[0] == '/',
{
    if base.len() == 0 {
        assert(base + child =~= child);
    }
}

/// The components of an absolute path are the root and its parts; those of a relative
/// one are its parts, behind a dot where it begins with one.
pub proof fn lemma_components_of_paths(path: Seq<char>)
    ensures
        path.len() > 0 && path[0] == '/' ==> components(path) == seq!["/"@] + path_parts(path),
        path.len() > 0 && path[0] != '/' && path[0] != '.' ==> components(path) == path_parts(path),
        path.len() > 1 && path[0] == '.' && path[1] == '/' ==> components(path) == seq!["."@]
            + path_parts(path),
        path == "."@ ==> components(path) == seq!["."@] + path_parts(path),
        path.len() == 0 ==> components(path).len() == 0,
{
    reveal_strlit(".");
    if path.len() == 0 {
        assert(path_parts(path) =~= Seq::empty());
    }
}

/// Parts that are empty or a dot do not count; slashes separate the others.
pub proof fn lemma_parts_of_paths(a: Seq<char>, b: Seq<char>, name: Seq<char>)
    ensures
        path_parts(a.push('/') + b) == path_parts(a) + path_parts(b),
        name.len() > 0 && name != "."@ && !name.contains('/') ==> path_parts(name) == seq![name],
        path_parts(Seq::empty()).len() == 0,
        path_parts("."@).len() == 0,
{
    lemma_parts_of_join(a, b);
    if name.len() > 0 && name != "."@ && !name.contains('/') {
        lemma_parts_of_name(name);
    }
    reveal_strlit(".");
    let dot = "."@;
    assert(!dot.contains('/')) by {
        if dot.contains('/') {
            let j = choose|j: int| 0 <= j < dot.len() && dot[j] == '/';
        }
    }
    lemma_no_slash(dot);
}

/// Two dots take back the name in front of them; names are added; a dot changes
/// nothing; and what has led out of the directory stays out.
pub proof fn lemma_names_below_step(parts: Seq<Seq<char>>, part: Seq<char>)
    ensures
        names_below(Seq::empty()) == Some(Seq::<Seq<char>>::empty()),
        names_below(parts) is None ==> names_below(parts.push(part)) is None,
        names_below(parts) matches Some(names) ==> {
            &&& part == ".."@ && names.len() == 0 ==> names_below(parts.push(part)) is None
            &&& part == ".."@ && names.len() > 0 ==> names_below(parts.push(part)) == Some(
                names.drop_last(),
            )
            &&& part == "."@ ==> names_below(parts.push(part)) == Some(names)
            &&& part != "."@ && part != ".."@ ==> names_below(parts.push(part)) == Some(
                names.push(part),
            )
        },
        leads_down(parts) <==> names_below(parts) is Some && (names_below(parts)->0).len() > 0,
{
    reveal_strlit(".");
    reveal_strlit("..");
    assert("."@.len() != ".."@.len());
    assert(parts.push(part).drop_last() =~= parts);
}

/// A path lies within a directory, by its text, exactly if it is that directory or
/// goes on behind a slash.
pub proof fn lemma_within_a_directory(root: Seq<char>, rest: Seq<char>, path: Seq<char>)
    ensures
        lies_within(root, root),
        lies_within(root.push('/') + rest, root),
        lies_within(path, root) ==> path == root || (path.len() > root.len() && path.take(
            root.len() as int,
        ) == root && path[root.len() as int] == '/'),
{
    let n = root.len() as int;
    let outer = root.push('/');
    assert(outer =~= outer.subrange(0, n + 1));
    assert(outer =~= (outer + rest).push('/').subrange(0, n + 1));
    if lies_within(path, root) {
        let inner = path.push('/');
        assert(outer =~= inner.subrange(0, n + 1));
        assert forall|i: int| 0 <= i <= n implies inner[i] == outer[i] by {
            assert(inner.subrange(0, n + 1)[i] == inner[i]);
        }
        if path.len() == n {
            assert forall|i: int| 0 <= i < n implies path[i] == root[i] by {
                assert(inner[i] == outer[i]);
            }
            assert(path =~= root);
        } else {
            assert(path.take(n) =~= root) by {
                assert forall|i: int| 0 <= i < n implies path[i] == root[i] by {
                    assert(inner[i] == outer[i]);
                }
            }
            assert(inner[n] == outer[n]);
        }
    }
}

/// The way to the canonical form of a path: a link is followed with the same parts
/// left; what is there is passed; where nothing is, the rest is taken as it stands;
/// any failure is told of at the place where it came up.
pub proof fn lemma_way_to_the_canonical_form(walk: Walk, text: Seq<char>)
    requires
        walk.remaining.len() > 0,
    ensures
        ({
            let next = join_path(walk.resolved, walk.remaining[0]);
            &&& walk_candidate(walk) == Some(next)
            &&& walk_step(walk, ProbeModel::Symlink(text)) == Ok::<Walk, (Seq<char>, Seq<char>)>(
                Walk { resolved: join_path(walk.resolved, text), remaining: walk.remaining },
            )
            &&& walk_step(walk, ProbeModel::Present) == Ok::<Walk, (Seq<char>, Seq<char>)>(
                Walk { resolved: next, remaining: walk.remaining.drop_first() },
            )
            &&& walk_step(walk, ProbeModel::Missing) == Ok::<Walk, (Seq<char>, Seq<char>)>(
                Walk {
                    resolved: join_all(walk.resolved, walk.remaining),
                    remaining: Seq::empty(),
                },
            )
            &&& walk_step(walk, ProbeModel::Failed(text)) == Err::<Walk, (Seq<char>, Seq<char>)>(
                (next, text),
            )
            &&& walk_step(walk, ProbeModel::UnreadableLink(text)) == Err::<
                Walk,
                (Seq<char>, Seq<char>),
            >((next, text))
        }),
{
}

/// A relative path is seen from the working directory, or from a dot where that is not
/// known; the way to the canonical form begins at its first component.
pub proof fn lemma_way_begins_at_the_front(path: Seq<char>, dir: Seq<char>)
    ensures
        is_absolute(path) ==> absolute_path(path, Some(dir)) == path && absolute_path(path, None)
            == path,
        !is_absolute(path) ==> absolute_path(path, Some(dir)) == join_path(dir, path)
            && absolute_path(path, None) == join_path("."@, path),
        ({
            let parts = components(absolute_path(path, Some(dir)));
            let walk = walk_start(path, Some(dir));
            parts.len() > 0 ==> walk.resolved == parts[0] && seq![walk.resolved] + walk.remaining
                == parts
        }),
{
    let parts = components(absolute_path(path, Some(dir)));
    if parts.len() > 0 {
        assert(seq![parts[0]] + parts.skip(1) =~= parts);
    }
}

/// The name of a file is the last component of its path, unless that is the root, a
/// dot or two dots.
pub proof fn lemma_name_of_a_file(path: Seq<char>)
    ensures
        ({
            let parts = components(path);
            file_name(path) is None <==> parts.len() == 0 || parts.last() == "/"@ || parts.last()
                == "."@ || parts.last() == ".."@
        }),
        file_name(path) matches Some(name) ==> components(path).last() == name,
{
}

/// What is told of a path that cannot be resolved names the path and then the cause.
pub proof fn lemma_path_failures_are_told(path: Seq<char>, source: Seq<char>)
    ensures
        ("path_canonicalize_failed: "@ + path).is_prefix_of(path_failure(path, source)),
        (" ("@ + source + ")"@).is_suffix_of(path_failure(path, source)),
        path_failure(path, source).len() == 26 + path.len() + 2 + source.len() + 1,
{
    let text = path_failure(path, source);
    let front = "path_canonicalize_failed: "@ + path;
    let behind = " ("@ + source + ")"@;
    reveal_strlit("path_canonicalize_failed: ");
    reveal_strlit(" (");
    reveal_strlit(")");
    assert(text =~= front + behind);
    assert(text.take(front.len() as int) =~= front);
    assert(text.skip(text.len() - behind.len()) =~= behind);
}

} // verus!
