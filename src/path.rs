//! File-system paths as plain values: an absolute flag and a list of parts.
use vstd::prelude::*;

verus! {

/// A path written as its parts: `/a/b/c.txt` is absolute with parts `a`, `b`, `c.txt`.
#[derive(Debug)]
pub struct FilePath {
    absolute: bool,
    parts: Vec<String>,
}

/// The mathematical value of a `FilePath`.
pub struct PathView {
    pub absolute: bool,
    pub parts: Seq<Seq<char>>,
}

pub open spec fn texts(parts: Seq<String>) -> Seq<Seq<char>> {
    parts.map_values(|s: String| s@)
}

impl View for FilePath {
    type V = PathView;

    closed spec fn view(&self) -> PathView {
        PathView { absolute: self.absolute, parts: texts(self.parts@) }
    }
}

/// Reading `s[0..n]`: the parts completed so far, and where the part in progress starts.
pub open spec fn scan(s: Seq<char>, n: int) -> (Seq<Seq<char>>, int)
    decreases n,
{
    if n <= 0 {
        (Seq::empty(), 0)
    } else {
        let (done, start) = scan(s, n - 1);
        if s[n - 1] == '/' {
            if start < n - 1 {
                (done.push(s.subrange(start, n - 1)), n)
            } else {
                (done, n)
            }
        } else {
            (done, start)
        }
    }
}

/// The parts of a path's text: its maximal runs of characters other than `/`.
pub open spec fn split_parts(s: Seq<char>) -> Seq<Seq<char>> {
    let (done, start) = scan(s, s.len() as int);
    if start < s.len() {
        done.push(s.subrange(start, s.len() as int))
    } else {
        done
    }
}

/// The path that a text names.
pub open spec fn parse_spec(s: Seq<char>) -> PathView {
    PathView { absolute: s.len() > 0 && s[0] == '/', parts: split_parts(s) }
}

/// Parts joined by `/`.
pub open spec fn join_parts(ps: Seq<Seq<char>>) -> Seq<char>
    decreases ps.len(),
{
    if ps.len() == 0 {
        Seq::empty()
    } else if ps.len() == 1 {
        ps[0]
    } else {
        join_parts(ps.drop_last()) + seq!['/'] + ps.last()
    }
}

/// The text of a path: a leading `/` when it is absolute, then its parts joined by `/`.
pub open spec fn render(p: PathView) -> Seq<char> {
    (if p.absolute { seq!['/'] } else { Seq::empty() }) + join_parts(p.parts)
}

/// `root` lies at the start of `p`: same kind of path, and its parts come first.
pub open spec fn is_prefix(root: PathView, p: PathView) -> bool {
    &&& root.absolute == p.absolute
    &&& root.parts.len() <= p.parts.len()
    &&& p.parts.subrange(0, root.parts.len() as int) == root.parts
}

/// What is left of `p` once `root` is taken off its start.
pub open spec fn strip_spec(p: PathView, root: PathView) -> PathView {
    PathView { absolute: false, parts: p.parts.subrange(root.parts.len() as int, p.parts.len() as int) }
}

/// `base` followed by `rel`; an absolute `rel` stands for itself.
pub open spec fn join_spec(base: PathView, rel: PathView) -> PathView {
    if rel.absolute {
        rel
    } else {
        PathView { absolute: base.absolute, parts: base.parts + rel.parts }
    }
}

/// The directory that holds `p`: `p` without its last part.
pub open spec fn parent_spec(p: PathView) -> PathView {
    if p.parts.len() == 0 {
        p
    } else {
        PathView { absolute: p.absolute, parts: p.parts.drop_last() }
    }
}

/// The last part of `p`, if it has one.
pub open spec fn file_name_spec(p: PathView) -> Option<Seq<char>> {
    if p.parts.len() == 0 {
        None
    } else {
        Some(p.parts.last())
    }
}

/// Appends `src[from..to]` to `dst`.
fn append_parts(dst: &mut Vec<String>, src: &Vec<String>, from: usize, to: usize)
    requires
        from <= to <= src@.len(),
    ensures
        texts(final(dst)@) == texts(old(dst)@) + texts(src@).subrange(from as int, to as int),
{
    let ghost start = dst@;
    let mut i: usize = from;
    while i < to
        invariant
            from <= i <= to <= src@.len(),
            dst@.len() == start.len() + (i - from),
            forall|k: int| 0 <= k < start.len() ==> dst@[k] == start[k],
            forall|k: int| from <= k < i ==> #[trigger] dst@[start.len() + k - from]@ == src@[k]@,
        decreases to - i,
    {
        let part = src[i].clone();
        dst.push(part);
        i += 1;
    }
    assert(texts(dst@) =~= texts(start) + texts(src@).subrange(from as int, to as int)) by {
        assert forall|k: int| start.len() <= k < dst@.len() implies dst@[k]@ == src@[k - start.len() + from]@ by {
            let j = k - start.len() + from;
            assert(dst@[start.len() + j - from]@ == src@[j]@);
        }
    }
}

fn copy_parts(parts: &Vec<String>) -> (r: Vec<String>)
    ensures
        texts(r@) == texts(parts@),
{
    let mut r: Vec<String> = Vec::new();
    append_parts(&mut r, parts, 0, parts.len());
    assert(texts(r@) =~= texts(parts@));
    r
}

impl FilePath {
    /// The empty relative path.
    pub fn new() -> (r: FilePath)
        ensures
            r@ == (PathView { absolute: false, parts: Seq::empty() }),
    {
        let r = FilePath { absolute: false, parts: Vec::new() };
        assert(r@.parts =~= Seq::<Seq<char>>::empty());
        r
    }

    /// The path that `text` names: parts are separated by `/`, empty parts are dropped.
    pub fn parse(text: &str) -> (r: FilePath)
        ensures
            r@ == parse_spec(text@),
    {
        let n = text.unicode_len();
        let mut parts: Vec<String> = Vec::new();
        let mut start: usize = 0;
        let mut i: usize = 0;
        while i < n
            invariant
                n == text@.len(),
                start <= i <= n,
                scan(text@, i as int) == (texts(parts@), start as int),
            decreases n - i,
        {
            if text.get_char(i) == '/' {
                if start < i {
                    let ghost before = parts@;
                    let part = String::from_str(text.substring_char(start, i));
                    parts.push(part);
                    assert(texts(parts@) =~= texts(before).push(text@.subrange(start as int, i as int)));
                }
                start = i + 1;
            }
            i += 1;
        }
        if start < n {
            let ghost before = parts@;
            let part = String::from_str(text.substring_char(start, n));
            parts.push(part);
            assert(texts(parts@) =~= texts(before).push(text@.subrange(start as int, n as int)));
        }
        let absolute = n > 0 && text.get_char(0) == '/';
        FilePath { absolute, parts }
    }

    pub fn is_absolute(&self) -> (r: bool)
        ensures
            r == self@.absolute,
    {
        self.absolute
    }

    pub fn parts(&self) -> (r: &Vec<String>)
        ensures
            texts(r@) == self@.parts,
    {
        &self.parts
    }

    /// The text of the path, parts joined by `/`.
    pub fn to_text(&self) -> (r: String)
        ensures
            r@ == render(self@),
    {
        let mut r = String::new();
        proof {
            reveal_strlit("/");
        }
        if self.absolute {
            r.append("/");
        }
        let ghost lead = r@;
        let mut i: usize = 0;
        while i < self.parts.len()
            invariant
                i <= self.parts@.len(),
                lead == (if self.absolute { seq!['/'] } else { Seq::<char>::empty() }),
                r@ == lead + join_parts(texts(self.parts@).take(i as int)),
            decreases self.parts@.len() - i,
        {
            let ghost ps = texts(self.parts@).take(i as int + 1);
            assert(ps.drop_last() =~= texts(self.parts@).take(i as int));
            assert(ps.last() == self.parts@[i as int]@);
            proof {
                reveal_strlit("/");
            }
            assert("/"@ =~= seq!['/']);
            if i > 0 {
                r.append("/");
            }
            r.append(self.parts[i].as_str());
            i += 1;
            assert(r@ =~= lead + join_parts(ps));
        }
        assert(texts(self.parts@).take(self.parts@.len() as int) =~= texts(self.parts@));
        r
    }

    /// The last part, if the path has one.
    pub fn file_name(&self) -> (r: Option<String>)
        ensures
            r matches Some(s) ==> file_name_spec(self@) == Some(s@),
            r is None ==> file_name_spec(self@) is None,
    {
        let n = self.parts.len();
        if n == 0 {
            None
        } else {
            Some(self.parts[n - 1].clone())
        }
    }

    /// The directory that holds this path.
    pub fn parent(&self) -> (r: FilePath)
        ensures
            r@ == parent_spec(self@),
    {
        let mut parts = copy_parts(&self.parts);
        if parts.len() > 0 {
            parts.pop();
            assert(texts(parts@) =~= texts(self.parts@).drop_last());
        }
        FilePath { absolute: self.absolute, parts }
    }

    /// This path followed by `rel`, as `PathBuf::push` joins them.
    pub fn join(&self, rel: &FilePath) -> (r: FilePath)
        ensures
            r@ == join_spec(self@, rel@),
    {
        if rel.absolute {
            return rel.clone();
        }
        let mut parts = copy_parts(&self.parts);
        append_parts(&mut parts, &rel.parts, 0, rel.parts.len());
        assert(texts(rel.parts@).subrange(0, rel.parts@.len() as int) =~= texts(rel.parts@));
        FilePath { absolute: self.absolute, parts }
    }

    /// This path with `root` taken off its start, or `None` where `root` does not start it.
    pub fn strip_prefix(&self, root: &FilePath) -> (r: Option<FilePath>)
        ensures
            r is Some <==> is_prefix(root@, self@),
            r matches Some(rel) ==> rel@ == strip_spec(self@, root@),
    {
        if root.absolute != self.absolute || root.parts.len() > self.parts.len() {
            return None;
        }
        let mut i: usize = 0;
        while i < root.parts.len()
            invariant
                root.parts@.len() <= self.parts@.len(),
                i <= root.parts@.len(),
                forall|k: int| 0 <= k < i ==> texts(self.parts@)[k] == texts(root.parts@)[k],
            decreases root.parts@.len() - i,
        {
            if !(self.parts[i] == root.parts[i]) {
                assert(texts(self.parts@).subrange(0, root.parts@.len() as int)[i as int] != texts(root.parts@)[i as int]);
                return None;
            }
            i += 1;
        }
        assert(texts(self.parts@).subrange(0, root.parts@.len() as int) =~= texts(root.parts@));
        let mut parts: Vec<String> = Vec::new();
        append_parts(&mut parts, &self.parts, root.parts.len(), self.parts.len());
        assert(texts(parts@) =~= texts(self.parts@).subrange(root.parts@.len() as int, self.parts@.len() as int));
        Some(FilePath { absolute: false, parts })
    }

    /// Whether two paths have the same kind and the same parts.
    pub fn same(&self, other: &FilePath) -> (r: bool)
        ensures
            r == (self@ == other@),
    {
        if self.absolute != other.absolute || self.parts.len() != other.parts.len() {
            assert(texts(self.parts@).len() == self.parts@.len());
            assert(texts(other.parts@).len() == other.parts@.len());
            return false;
        }
        let mut i: usize = 0;
        while i < self.parts.len()
            invariant
                self.parts@.len() == other.parts@.len(),
                i <= self.parts@.len(),
                forall|k: int| 0 <= k < i ==> texts(self.parts@)[k] == texts(other.parts@)[k],
            decreases self.parts@.len() - i,
        {
            if !(self.parts[i] == other.parts[i]) {
                assert(texts(self.parts@)[i as int] != texts(other.parts@)[i as int]);
                return false;
            }
            i += 1;
        }
        assert(texts(self.parts@) =~= texts(other.parts@));
        true
    }
}

impl Clone for FilePath {
    fn clone(&self) -> (r: Self)
        ensures
            r@ == self@,
    {
        FilePath { absolute: self.absolute, parts: copy_parts(&self.parts) }
    }
}

impl PartialEq for FilePath {
    fn eq(&self, other: &FilePath) -> (r: bool) {
        self.same(other)
    }
}

impl vstd::std_specs::cmp::PartialEqSpecImpl for FilePath {
    open spec fn obeys_eq_spec() -> bool {
        true
    }

    open spec fn eq_spec(&self, other: &FilePath) -> bool {
        self@ == other@
    }
}

} // verus!
