use vstd::prelude::*;

verus! {

/// Number of project files the recent list remembers.
pub const MAX_RECENT_FILES: usize = 10;

/// The text of each path.
pub open spec fn texts(paths: Seq<String>) -> Seq<Seq<char>> {
    paths.map_values(|p: String| p@)
}

/// The first `MAX_RECENT_FILES` entries of a list.
pub open spec fn capped(s: Seq<Seq<char>>) -> Seq<Seq<char>> {
    if s.len() <= MAX_RECENT_FILES {
        s
    } else {
        s.subrange(0, MAX_RECENT_FILES as int)
    }
}

/// The recent list after opening or saving `path`: the path moves to the
/// front, no path is listed twice, and only the newest entries are kept.
pub open spec fn recorded(recent: Seq<Seq<char>>, path: Seq<char>) -> Seq<Seq<char>> {
    capped(seq![path] + recent.filter(other_than(path)))
}

/// Paths other than `path`.
pub open spec fn other_than(path: Seq<char>) -> spec_fn(Seq<char>) -> bool {
    |q: Seq<char>| q != path
}

/// After a project is opened or saved its path heads the recent list, the
/// list holds at most `MAX_RECENT_FILES` paths, and a list without repeated
/// paths stays without them.
pub proof fn lemma_recent_list_keeps_order(recent: Seq<Seq<char>>, path: Seq<char>)
    ensures
        recorded(recent, path).len() >= 1,
        recorded(recent, path)[0] == path,
        recorded(recent, path).len() <= MAX_RECENT_FILES,
        recent.no_duplicates() ==> recorded(recent, path).no_duplicates(),
{
    let kept = recent.filter(other_than(path));
    let all = seq![path] + kept;
    if recent.no_duplicates() {
        lemma_filter_keeps_distinct(recent, other_than(path));
        assert forall|i: int, j: int| 0 <= i < all.len() && 0 <= j < all.len() && i != j implies all[i] != all[j] by {
            if i == 0 || j == 0 {
                let k = if i == 0 { j } else { i };
                assert(all[k] == kept[k - 1]);
                recent.lemma_filter_pred(other_than(path), k - 1);
            }
        }
        assert(all.no_duplicates());
        assert(recorded(recent, path) == capped(all));
        assert forall|i: int, j: int|
            0 <= i < capped(all).len() && 0 <= j < capped(all).len() && i != j implies capped(all)[i] != capped(all)[j] by {
            assert(capped(all)[i] == all[i]);
            assert(capped(all)[j] == all[j]);
        }
    }
}

proof fn lemma_filter_keeps_distinct(s: Seq<Seq<char>>, p: spec_fn(Seq<char>) -> bool)
    requires
        s.no_duplicates(),
    ensures
        s.filter(p).no_duplicates(),
    decreases s.len(),
{
    reveal(Seq::filter);
    if s.len() > 0 {
        let rest = s.drop_last();
        assert forall|i: int, j: int| 0 <= i < rest.len() && 0 <= j < rest.len() && i != j implies rest[i] != rest[j] by {
            assert(rest[i] == s[i] && rest[j] == s[j]);
        }
        lemma_filter_keeps_distinct(rest, p);
        if p(s.last()) {
            let f = rest.filter(p);
            assert forall|k: int| 0 <= k < f.len() implies f[k] != s.last() by {
                assert(f.contains(f[k]));
                rest.lemma_filter_contains_rev(p, f[k]);
                let t = choose|t: int| 0 <= t < rest.len() && rest[t] == f[k];
                assert(rest[t] == s[t]);
            }
            let g = f.push(s.last());
            assert forall|i: int, j: int| 0 <= i < g.len() && 0 <= j < g.len() && i != j implies g[i] != g[j] by {
                if i < f.len() && j < f.len() {
                    assert(g[i] == f[i] && g[j] == f[j]);
                }
            }
        }
    }
}

/// The first listed path that still exists as a file.
pub open spec fn first_existing(paths: Seq<Seq<char>>, existing: Seq<bool>) -> Option<Seq<char>>
    decreases paths.len(),
{
    if paths.len() == 0 || existing.len() == 0 {
        None
    } else if existing[0] {
        Some(paths[0])
    } else {
        first_existing(paths.drop_first(), existing.drop_first())
    }
}

/// What the last component of `path` can be on any platform: a nonempty
/// piece of the path.
pub open spec fn is_file_name_of(name: Seq<char>, path: Seq<char>) -> bool {
    &&& name.len() > 0
    &&& exists|i: int| 0 <= i && i + name.len() <= path.len() && #[trigger] path.subrange(i, i + name.len()) == name
}

/// The part of `path` after its last `/`.
pub open spec fn last_segment(path: Seq<char>) -> Seq<char>
    decreases path.len(),
{
    if path.len() == 0 {
        path
    } else if path.last() == '/' {
        Seq::empty()
    } else {
        last_segment(path.drop_last()).push(path.last())
    }
}

/// A name that every platform reads as one ordinary path component: not
/// empty, not `.` or `..`, and free of separators and drive colons.
pub open spec fn plain_segment(name: Seq<char>) -> bool {
    &&& name.len() > 0
    &&& name != "."@
    &&& name != ".."@
    &&& forall|i: int| 0 <= i < name.len() ==> {
        let c = #[trigger] name[i];
        c != '/' && c != '\\' && c != ':'
    }
}

/// A path that every platform splits the same way: it holds no `\\` and no
/// `:` and does not start with `//`, so it has no drive, server or device
/// prefix, `/` is its only separator, and at most a single leading `/`
/// makes it absolute.
pub open spec fn portable_path(path: Seq<char>) -> bool {
    &&& path.len() > 0
    &&& !(path.len() >= 2 && path[0] == '/' && path[1] == '/')
    &&& forall|i: int| 0 <= i < path.len() ==> {
        let c = #[trigger] path[i];
        c != '\\' && c != ':'
    }
}

/// The last component of `path` as text: `std::path::Path::file_name`,
/// turned into a `String` by `to_string_lossy`. The separators it splits on
/// depend on the platform, so only what holds everywhere is claimed: a
/// returned name is a nonempty piece of the path, and a path, relative or
/// with a single leading `/`, that splits on `/` alone and ends in an
/// ordinary component (as in `tmp/foo.txt` or `/home/u/castle.json`) gives
/// that component. Which piece other paths give, and
/// when they give `None` (a root, an empty path or one ending in `..`), is
/// left unsaid.
#[verifier::external_body]
fn path_file_name(path: &String) -> (r: Option<String>)
    ensures
        r matches Some(n) ==> is_file_name_of(n@, path@),
        r is None ==> !(portable_path(path@) && plain_segment(last_segment(path@))),
        r matches Some(n) ==> (portable_path(path@) && plain_segment(last_segment(path@)) ==> n@ == last_segment(path@)),
{
    match std::path::Path::new(path.as_str()).file_name() {
        Some(name) => Some(name.to_string_lossy().into_owned()),
        None => None,
    }
}

/// The name shown for a project: its file name, or "Untitled" without one.
pub fn name_or_untitled(file_name: Option<String>) -> (r: String)
    ensures
        r@ == match file_name {
            Some(n) => n@,
            None => "Untitled"@,
        },
{
    match file_name {
        Some(n) => n,
        None => "Untitled".to_owned(),
    }
}

/// The name shown for a recent file: its file name, or nothing.
pub fn name_or_empty(file_name: Option<String>) -> (r: String)
    ensures
        r@ == match file_name {
            Some(n) => n@,
            None => Seq::<char>::empty(),
        },
{
    match file_name {
        Some(n) => n,
        None => String::new(),
    }
}

/// The open project file and the list of recently used ones.
pub struct ProjectSession {
    app_data_dir: String,
    current_path: Option<String>,
    recent: Vec<String>,
}

impl ProjectSession {
    pub closed spec fn data_dir(&self) -> Seq<char> {
        self.app_data_dir@
    }

    pub closed spec fn current(&self) -> Option<Seq<char>> {
        match self.current_path {
            Some(p) => Some(p@),
            None => None,
        }
    }

    pub closed spec fn recent_list(&self) -> Seq<Seq<char>> {
        texts(self.recent@)
    }

    /// A session with no project open and nothing remembered.
    pub fn new() -> (r: ProjectSession)
        ensures
            r.data_dir() == Seq::<char>::empty(),
            r.current() is None,
            r.recent_list() == Seq::<Seq<char>>::empty(),
    {
        ProjectSession { app_data_dir: String::new(), current_path: None, recent: Vec::new() }
    }

    /// A session with no project open that keeps its data in
    /// `app_data_dir` and remembers `recent`, newest first.
    pub fn restore(app_data_dir: String, recent: Vec<String>) -> (r: ProjectSession)
        ensures
            r.data_dir() == app_data_dir@,
            r.current() is None,
            r.recent_list() == texts(recent@),
    {
        ProjectSession { app_data_dir, current_path: None, recent }
    }

    /// The folder the session keeps its data in.
    pub fn app_data_dir(&self) -> (r: &String)
        ensures
            r@ == self.data_dir(),
    {
        &self.app_data_dir
    }

    /// The path of the open project, if it has one.
    pub fn current_path(&self) -> (r: Option<String>)
        ensures
            match r {
                Some(p) => self.current() == Some(p@),
                None => self.current() is None,
            },
    {
        match &self.current_path {
            Some(p) => Some(p.clone()),
            None => None,
        }
    }

    /// The remembered project paths, newest first.
    pub fn recent_paths(&self) -> (r: &Vec<String>)
        ensures
            texts(r@) == self.recent_list(),
    {
        &self.recent
    }

    /// The name shown for the open project: its file name, or "Untitled"
    /// when no file is open.
    pub fn current_name(&self) -> (r: String)
        ensures
            self.current() is None ==> r@ == "Untitled"@,
            self.current() matches Some(p) ==> r@ == "Untitled"@ || is_file_name_of(r@, p),
            self.current() matches Some(p) ==> (portable_path(p) && plain_segment(last_segment(p)) ==> r@ == last_segment(p)),
    {
        match &self.current_path {
            Some(p) => name_or_untitled(path_file_name(p)),
            None => name_or_untitled(None),
        }
    }

    /// The most recent remembered path that still exists, where
    /// `existing[i]` tells whether the `i`-th remembered path is a file.
    pub fn latest_recent_path(&self, existing: &Vec<bool>) -> (r: Option<String>)
        ensures
            match r {
                Some(p) => first_existing(self.recent_list(), existing@) == Some(p@),
                None => first_existing(self.recent_list(), existing@) is None,
            },
    {
        let ghost paths = self.recent_list();
        let mut i: usize = 0;
        assert(paths.subrange(0, paths.len() as int) =~= paths);
        assert(existing@.subrange(0, existing@.len() as int) =~= existing@);
        while i < self.recent.len() && i < existing.len()
            invariant
                paths == texts(self.recent@),
                i <= self.recent@.len(),
                i <= existing@.len(),
                first_existing(paths, existing@) == first_existing(
                    paths.subrange(i as int, paths.len() as int),
                    existing@.subrange(i as int, existing@.len() as int),
                ),
            decreases self.recent@.len() - i,
        {
            let ghost rest = paths.subrange(i as int, paths.len() as int);
            let ghost flags = existing@.subrange(i as int, existing@.len() as int);
            assert(rest[0] == paths[i as int]);
            assert(flags[0] == existing@[i as int]);
            if existing[i] {
                return Some(self.recent[i].clone());
            }
            assert(rest.drop_first() =~= paths.subrange(i + 1, paths.len() as int));
            assert(flags.drop_first() =~= existing@.subrange(i + 1, existing@.len() as int));
            i = i + 1;
        }
        assert(paths.subrange(i as int, paths.len() as int).len() == 0 || existing@.subrange(
            i as int,
            existing@.len() as int,
        ).len() == 0);
        None
    }

    /// The file name of the most recent remembered path that still exists,
    /// or nothing.
    pub fn latest_recent_name(&self, existing: &Vec<bool>) -> (r: String)
        ensures
            first_existing(self.recent_list(), existing@) is None ==> r@ == Seq::<char>::empty(),
            first_existing(self.recent_list(), existing@) matches Some(p) ==> r@ == Seq::<char>::empty()
                || is_file_name_of(r@, p),
            first_existing(self.recent_list(), existing@) matches Some(p) ==> (portable_path(p) && plain_segment(last_segment(p)) ==> r@ == last_segment(p)),
    {
        match self.latest_recent_path(existing) {
            Some(p) => name_or_empty(path_file_name(&p)),
            None => name_or_empty(None),
        }
    }

    /// Records that `path` was opened or saved: it becomes the open project
    /// and moves to the front of the recent list.
    pub fn mark_opened(&mut self, path: String)
        ensures
            final(self).current() == Some(path@),
            final(self).recent_list() == recorded(old(self).recent_list(), path@),
            final(self).data_dir() == old(self).data_dir(),
    {
        let ghost old_list = self.recent_list();
        let ghost keep = other_than(path@);
        let mut list: Vec<String> = Vec::new();
        list.push(path.clone());
        assert(old_list.subrange(0, 0).filter(keep) =~= Seq::<Seq<char>>::empty());
        assert(texts(list@) =~= capped(seq![path@] + old_list.subrange(0, 0).filter(keep)));
        let mut i: usize = 0;
        while i < self.recent.len()
            invariant
                old_list == texts(self.recent@),
                keep == other_than(path@),
                i <= old_list.len(),
                texts(list@) == capped(seq![path@] + old_list.subrange(0, i as int).filter(keep)),
                list@.len() <= MAX_RECENT_FILES,
            decreases old_list.len() - i,
        {
            let ghost prefix = old_list.subrange(0, i as int);
            let ghost longer = old_list.subrange(0, i + 1);
            let ghost before = seq![path@] + prefix.filter(keep);
            let ghost after = seq![path@] + longer.filter(keep);
            assert(longer.drop_last() =~= prefix);
            assert(longer.last() == old_list[i as int]);
            assert(self.recent@[i as int]@ == old_list[i as int]);
            assert(texts(list@).len() == list@.len());
            reveal(Seq::filter);
            if self.recent[i] != path {
                assert(keep(old_list[i as int]));
                assert(longer.filter(keep) == prefix.filter(keep).push(old_list[i as int]));
                assert(after =~= before.push(old_list[i as int]));
                if list.len() < MAX_RECENT_FILES {
                    assert(before.len() < MAX_RECENT_FILES);
                    list.push(self.recent[i].clone());
                    assert(texts(list@) =~= capped(after));
                } else {
                    assert(before.len() >= MAX_RECENT_FILES);
                    assert(capped(after) =~= capped(before));
                }
            } else {
                assert(!keep(old_list[i as int]));
                assert(longer.filter(keep) == prefix.filter(keep));
                assert(after =~= before);
            }
            i = i + 1;
        }
        assert(old_list.subrange(0, old_list.len() as int) =~= old_list);
        self.recent = list;
        self.current_path = Some(path);
    }
}

} // verus!
