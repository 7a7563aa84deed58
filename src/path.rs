use vstd::prelude::*;

verus! {

/// The views of a sequence of strings.
pub open spec fn parts_view(v: Seq<String>) -> Seq<Seq<char>> {
    v.map_values(|s: String| s@)
}

/// The components joined, each preceded by a slash.
pub open spec fn slashed(p: Seq<Seq<char>>) -> Seq<char>
    decreases p.len(),
{
    if p.len() == 0 {
        Seq::empty()
    } else {
        slashed(p.drop_last()) + seq!['/'] + p.last()
    }
}

/// The text of a path: a slash for the root, else each component preceded
/// by a slash.
pub open spec fn path_text(p: Seq<Seq<char>>) -> Seq<char> {
    if p.len() == 0 {
        seq!['/']
    } else {
        slashed(p)
    }
}

/// An absolute, canonical directory path, held as its components from the
/// root down; the root itself has no component.
pub struct DirPath {
    parts: Vec<String>,
}

impl View for DirPath {
    type V = Seq<Seq<char>>;

    closed spec fn view(&self) -> Seq<Seq<char>> {
        parts_view(self.parts@)
    }
}

impl DirPath {
    /// The root directory.
    pub fn root() -> (r: DirPath)
        ensures
            r@.len() == 0,
    {
        let r = DirPath { parts: Vec::new() };
        assert(r@ =~= Seq::<Seq<char>>::empty());
        r
    }

    /// The path with these components, from the root down.
    pub fn from_parts(parts: Vec<String>) -> (r: DirPath)
        ensures
            r@ == parts_view(parts@),
    {
        DirPath { parts }
    }

    /// The components, from the root down.
    pub fn parts(&self) -> (r: &Vec<String>)
        ensures
            parts_view(r@) == self@,
    {
        &self.parts
    }

    /// Whether this is the root directory.
    pub fn is_root(&self) -> (r: bool)
        ensures
            r == (self@.len() == 0),
    {
        self.parts.len() == 0
    }

    /// The path one component further down.
    pub fn join(&self, name: String) -> (r: DirPath)
        ensures
            r@ == self@.push(name@),
    {
        let mut r = self.duplicate();
        let ghost before = r.parts@;
        r.parts.push(name);
        assert(parts_view(r.parts@) =~= parts_view(before).push(name@));
        r
    }

    /// The parent directory; `None` at the root.
    pub fn parent(&self) -> (r: Option<DirPath>)
        ensures
            self@.len() == 0 ==> r is None,
            self@.len() > 0 ==> (r matches Some(p) && p@ == self@.drop_last()),
    {
        if self.parts.len() == 0 {
            None
        } else {
            let mut p = self.duplicate();
            let ghost before = p.parts@;
            p.parts.pop();
            assert(parts_view(p.parts@) =~= parts_view(before).drop_last());
            Some(p)
        }
    }

    /// The text of this path, as `/a/b`; the root is `/`.
    pub fn to_text(&self) -> (r: String)
        ensures
            r@ == path_text(self@),
    {
        let mut r = String::new();
        if self.parts.len() == 0 {
            crate::text::push_char(&mut r, '/');
            assert(r@ =~= seq!['/']);
            return r;
        }
        let mut i: usize = 0;
        while i < self.parts.len()
            invariant
                i <= self.parts@.len(),
                r@ == slashed(self@.take(i as int)),
            decreases self.parts@.len() - i,
        {
            crate::text::push_char(&mut r, '/');
            r.append(self.parts[i].as_str());
            proof {
                assert(self@.take(i as int + 1).drop_last() =~= self@.take(i as int));
                assert(self@[i as int] == self.parts@[i as int]@);
            }
            i += 1;
        }
        assert(self@.take(i as int) =~= self@);
        r
    }

    /// A copy of this path.
    pub fn duplicate(&self) -> (r: DirPath)
        ensures
            r@ == self@,
    {
        let mut parts: Vec<String> = Vec::new();
        let mut i: usize = 0;
        while i < self.parts.len()
            invariant
                i <= self.parts@.len(),
                parts@.len() == i,
                forall|k: int| 0 <= k < i ==> (#[trigger] parts@[k])@ == self.parts@[k]@,
            decreases self.parts@.len() - i,
        {
            parts.push(self.parts[i].clone());
            i += 1;
        }
        let r = DirPath { parts };
        assert(r@ =~= self@);
        r
    }
}

} // verus!
