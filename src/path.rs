use vstd::prelude::*;

verus! {

/// The segments of a path as character sequences.
pub open spec fn segs(v: Seq<String>) -> Seq<Seq<char>> {
    v.map_values(|s: String| s@)
}

/// The text of an optional string.
pub open spec fn opt_view(o: Option<String>) -> Option<Seq<char>> {
    match o {
        Some(s) => Some(s@),
        None => None,
    }
}

/// A segment that can stand in a relative path: not empty, not `.` or `..`,
/// and holding no separator.
pub open spec fn segment_ok(s: Seq<char>) -> bool {
    &&& s.len() > 0
    &&& s != seq!['.']
    &&& s != seq!['.', '.']
    &&& !s.contains('/')
}

/// The segments of `target` below `root`, when `root` is a prefix of it.
pub open spec fn descends(root: Seq<Seq<char>>, target: Seq<Seq<char>>) -> bool {
    root.len() <= target.len() && target.subrange(0, root.len() as int) == root
}

/// Segments joined by `/`.
pub open spec fn joined(s: Seq<Seq<char>>) -> Seq<char>
    decreases s.len(),
{
    if s.len() == 0 {
        Seq::empty()
    } else if s.len() == 1 {
        s[0]
    } else {
        joined(s.drop_last()) + seq!['/'] + s.last()
    }
}

/// Why a path cannot be taken relative to a root.
#[derive(Debug, Clone, PartialEq, Eq)]
pub enum PathError {
    /// The target does not lie under the root.
    NotDescendant,
    /// A segment below the root is empty, `.`, `..` or holds a separator.
    InvalidSegment,
}

/// A path relative to some root, as its segments.
#[derive(Debug, Clone)]
pub struct RelativePath(pub Vec<String>);

impl View for RelativePath {
    type V = Seq<Seq<char>>;

    open spec fn view(&self) -> Seq<Seq<char>> {
        segs(self.0@)
    }
}

/// Whether a segment may stand in a relative path.
pub fn is_valid_segment(s: &String) -> (r: bool)
    ensures
        r == segment_ok(s@),
{
    let t = s.as_str();
    let n = t.unicode_len();
    if n == 0 {
        return false;
    }
    let mut i: usize = 0;
    let mut dots: usize = 0;
    while i < n
        invariant
            n == s@.len(),
            t@ == s@,
            i <= n,
            dots <= i,
            forall|j: int| 0 <= j < i ==> s@[j] != '/',
            dots == i <==> (forall|j: int| 0 <= j < i ==> s@[j] == '.'),
        decreases n - i,
    {
        let c = t.get_char(i);
        if c == '/' {
            assert(s@.contains('/'));
            return false;
        }
        if c == '.' && dots == i {
            dots = dots + 1;
        }
        i = i + 1;
    }
    assert(!s@.contains('/'));
    if dots == n && n <= 2 {
        if n == 1 {
            assert(s@ =~= seq!['.']);
        } else {
            assert(s@ =~= seq!['.', '.']);
        }
        false
    } else {
        assert(s@ != seq!['.'] && s@ != seq!['.', '.']) by {
            if s@ == seq!['.'] || s@ == seq!['.', '.'] {
                assert(forall|j: int| 0 <= j < n ==> s@[j] == '.');
            }
        }
        true
    }
}

/// Whether two texts are equal.
pub fn same_text(a: &str, b: &str) -> (r: bool)
    ensures
        r == (a@ == b@),
{
    let n = a.unicode_len();
    if n != b.unicode_len() {
        return false;
    }
    let mut i: usize = 0;
    while i < n
        invariant
            n == a@.len() == b@.len(),
            i <= n,
            forall|j: int| 0 <= j < i ==> a@[j] == b@[j],
        decreases n - i,
    {
        if a.get_char(i) != b.get_char(i) {
            return false;
        }
        i = i + 1;
    }
    assert(a@ =~= b@);
    true
}

/// Whether two paths have the same segments.
pub fn same_path(a: &Vec<String>, b: &Vec<String>) -> (r: bool)
    ensures
        r == (segs(a@) == segs(b@)),
{
    if a.len() != b.len() {
        assert(segs(a@).len() != segs(b@).len());
        return false;
    }
    let mut i: usize = 0;
    while i < a.len()
        invariant
            a@.len() == b@.len(),
            i <= a@.len(),
            forall|j: int| 0 <= j < i ==> a@[j]@ == b@[j]@,
        decreases a.len() - i,
    {
        if a[i] != b[i] {
            assert(segs(a@)[i as int] != segs(b@)[i as int]);
            return false;
        }
        i = i + 1;
    }
    assert(segs(a@) =~= segs(b@));
    true
}

impl RelativePath {
    /// Whether every segment may stand in a relative path.
    pub open spec fn wf(&self) -> bool {
        forall|i: int| 0 <= i < self@.len() ==> segment_ok(#[trigger] self@[i])
    }

    /// Whether every segment may stand in a relative path.
    pub fn is_wf(&self) -> (r: bool)
        ensures
            r == self.wf(),
    {
        let mut i: usize = 0;
        while i < self.0.len()
            invariant
                i <= self.0@.len(),
                forall|j: int| 0 <= j < i ==> segment_ok(#[trigger] self@[j]),
            decreases self.0.len() - i,
        {
            if !is_valid_segment(&self.0[i]) {
                assert(!segment_ok(self@[i as int]));
                return false;
            }
            i = i + 1;
        }
        true
    }

    /// The part of `target` below `root`: `root` must be a prefix of `target`,
    /// and each remaining segment must be valid.
    pub fn new(root: &Vec<String>, target: &Vec<String>) -> (r: Result<RelativePath, PathError>)
        ensures
            match r {
                Ok(p) => descends(segs(root@), segs(target@)) && p@ == segs(target@).skip(
                    root@.len() as int,
                ) && p.wf(),
                Err(PathError::NotDescendant) => !descends(segs(root@), segs(target@)),
                Err(PathError::InvalidSegment) => descends(segs(root@), segs(target@)) && exists|
                    i: int,
                |
                    root@.len() <= i < target@.len() && !segment_ok(#[trigger] target@[i]@),
            },
    {
        if root.len() > target.len() {
            return Err(PathError::NotDescendant);
        }
        let mut i: usize = 0;
        while i < root.len()
            invariant
                root@.len() <= target@.len(),
                i <= root@.len(),
                forall|j: int| 0 <= j < i ==> root@[j]@ == target@[j]@,
            decreases root.len() - i,
        {
            if root[i] != target[i] {
                assert(segs(target@).subrange(0, root@.len() as int)[i as int] != segs(root@)[i as int]);
                return Err(PathError::NotDescendant);
            }
            i = i + 1;
        }
        assert(segs(target@).subrange(0, root@.len() as int) =~= segs(root@));
        let mut out: Vec<String> = Vec::new();
        while i < target.len()
            invariant
                root@.len() <= i <= target@.len(),
                descends(segs(root@), segs(target@)),
                out@.len() == i - root@.len(),
                forall|j: int|
                    0 <= j < out@.len() ==> #[trigger] out@[j]@ == target@[j + root@.len()]@,
                forall|j: int| root@.len() <= j < i ==> segment_ok(#[trigger] target@[j]@),
            decreases target.len() - i,
        {
            if !is_valid_segment(&target[i]) {
                assert(!segment_ok(target@[i as int]@));
                return Err(PathError::InvalidSegment);
            }
            out.push(target[i].clone());
            i = i + 1;
        }
        let p = RelativePath(out);
        assert(p@ =~= segs(target@).skip(root@.len() as int));
        Ok(p)
    }

    /// This path placed under `root`.
    pub fn rebase(&self, root: Vec<String>) -> (r: Vec<String>)
        ensures
            segs(r@) == segs(root@) + self@,
    {
        let mut out = root;
        let ghost start = out@;
        let mut i: usize = 0;
        while i < self.0.len()
            invariant
                i <= self.0@.len(),
                segs(out@) == segs(start) + self@.subrange(0, i as int),
            decreases self.0.len() - i,
        {
            let ghost prev = out@;
            out.push(self.0[i].clone());
            assert(out@ == prev.push(self.0@[i as int]));
            assert(segs(out@) =~= segs(prev).push(self@[i as int]));
            assert(self@.subrange(0, i + 1) =~= self@.subrange(0, i as int).push(self@[i as int]));
            i = i + 1;
        }
        assert(self@.subrange(0, i as int) =~= self@);
        out
    }

    /// The segments joined by `/`.
    pub fn to_string(&self) -> (r: String)
        ensures
            r@ == joined(self@),
    {
        let mut out = String::new();
        let mut i: usize = 0;
        while i < self.0.len()
            invariant
                i <= self.0@.len(),
                out@ == joined(self@.subrange(0, i as int)),
            decreases self.0.len() - i,
        {
            let ghost before = self@.subrange(0, i as int);
            let ghost after = self@.subrange(0, i + 1);
            assert(after.drop_last() =~= before);
            if i > 0 {
                out.append("/");
                proof {
                    reveal_strlit("/");
                }
            } else {
                assert(before.len() == 0);
            }
            out.append(self.0[i].as_str());
            i = i + 1;
            assert(out@ =~= joined(after));
        }
        assert(self@.subrange(0, i as int) =~= self@);
        out
    }
}

} // verus!
