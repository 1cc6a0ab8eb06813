//! The content of a list view: a directory listing, its ordering and its filter.
use vstd::prelude::*;
use vstd::string::*;

verus! {

/// What a listing is ordered by.
#[derive(Clone, Copy, PartialEq, Eq, Structural, Debug)]
pub enum SortBy {
    Name,
    Size,
    MTime,
}

/// Number of distinct sort keys.
pub open spec fn sort_key_count() -> nat {
    3
}

impl SortBy {
    /// The key that follows this one when cycling.
    pub open spec fn spec_next(self) -> SortBy {
        match self {
            SortBy::Name => SortBy::Size,
            SortBy::Size => SortBy::MTime,
            SortBy::MTime => SortBy::Name,
        }
    }

    /// The key reached after cycling `n` times.
    pub open spec fn cycled(self, n: nat) -> SortBy
        decreases n,
    {
        if n == 0 {
            self
        } else {
            self.spec_next().cycled((n - 1) as nat)
        }
    }

    pub open spec fn spec_label(self) -> Seq<char> {
        match self {
            SortBy::Name => "name"@,
            SortBy::Size => "size"@,
            SortBy::MTime => "mtime"@,
        }
    }

    pub fn next(&self) -> (r: SortBy)
        ensures
            r == self.spec_next(),
    {
        match self {
            SortBy::Name => SortBy::Size,
            SortBy::Size => SortBy::MTime,
            SortBy::MTime => SortBy::Name,
        }
    }

    /// A short name of the key, for status messages.
    pub fn label(&self) -> (r: String)
        ensures
            r@ == self.spec_label(),
    {
        match self {
            SortBy::Name => String::from_str("name"),
            SortBy::Size => String::from_str("size"),
            SortBy::MTime => String::from_str("mtime"),
        }
    }
}

/// One entry of a listing.
pub struct File {
    pub name: String,
    pub path: String,
    /// Size in bytes, where known.
    pub size: Option<u64>,
    /// Modification time, in seconds.
    pub mtime: u64,
    pub is_dir: bool,
    pub hidden: bool,
    pub tagged: bool,
    pub selected: bool,
    /// Color directive for the name, where the entry has one.
    pub color: Option<String>,
    /// Target of a symbolic link.
    pub target: Option<String>,
}

pub open spec fn opt_view(o: Option<String>) -> Option<Seq<char>> {
    match o {
        Some(s) => Some(s@),
        None => None,
    }
}

fn copy_opt(o: &Option<String>) -> (r: Option<String>)
    ensures
        opt_view(r) == opt_view(*o),
{
    match o {
        Some(s) => Some(s.clone()),
        None => None,
    }
}

fn same_opt(a: &Option<String>, b: &Option<String>) -> (r: bool)
    ensures
        r == (opt_view(*a) == opt_view(*b)),
{
    match (a, b) {
        (Some(x), Some(y)) => *x == *y,
        (None, None) => true,
        _ => false,
    }
}

/// All that an entry holds: name, path, size, modification time, whether it
/// is a directory, hidden, tagged, selected, its color and its link target.
pub type Value = (
    Seq<char>,
    Seq<char>,
    Option<u64>,
    u64,
    bool,
    bool,
    bool,
    bool,
    Option<Seq<char>>,
    Option<Seq<char>>,
);

/// What orders an entry: name, size, modification time, whether it is a
/// directory, whether it is hidden.
pub type Key = (Seq<char>, nat, nat, bool, bool);

/// A dot file is hidden.
pub open spec fn is_dot_name(name: Seq<char>) -> bool {
    name.len() > 0 && name[0] == '.'
}

impl File {
    pub open spec fn key(self) -> Key {
        (
            self.name@,
            match self.size {
                Some(s) => s as nat,
                None => 0,
            },
            self.mtime as nat,
            self.is_dir,
            self.hidden,
        )
    }

    /// All that an entry holds, as plain values.
    pub open spec fn value(self) -> Value {
        (
            self.name@,
            self.path@,
            self.size,
            self.mtime,
            self.is_dir,
            self.hidden,
            self.tagged,
            self.selected,
            opt_view(self.color),
            opt_view(self.target),
        )
    }

    /// Two entries hold the same values.
    pub open spec fn same_as(self, o: File) -> bool {
        self.value() == o.value()
    }

    /// Whether two entries hold the same values.
    pub fn same(&self, o: &File) -> (r: bool)
        ensures
            r == self.same_as(*o),
    {
        self.name == o.name && self.path == o.path && self.size == o.size && self.mtime == o.mtime
            && self.is_dir == o.is_dir && self.hidden == o.hidden && self.tagged == o.tagged
            && self.selected == o.selected && same_opt(&self.color, &o.color) && same_opt(
            &self.target,
            &o.target,
        )
    }

    /// An entry that is neither tagged nor selected, without color or link
    /// target; a name that starts with a dot makes it hidden.
    pub fn new(name: String, path: String, size: Option<u64>, mtime: u64, is_dir: bool) -> (r:
        File)
        ensures
            r.name@ == name@,
            r.path@ == path@,
            r.size == size,
            r.mtime == mtime,
            r.is_dir == is_dir,
            r.hidden == is_dot_name(name@),
            !r.tagged,
            !r.selected,
            r.color is None,
            r.target is None,
    {
        let hidden = name.as_str().unicode_len() > 0 && name.as_str().get_char(0) == '.';
        File {
            name,
            path,
            size,
            mtime,
            is_dir,
            hidden,
            tagged: false,
            selected: false,
            color: None,
            target: None,
        }
    }

    /// A copy with the same values.
    pub fn duplicate(&self) -> (r: File)
        ensures
            r.same_as(*self),
    {
        File {
            name: self.name.clone(),
            path: self.path.clone(),
            size: self.size,
            mtime: self.mtime,
            is_dir: self.is_dir,
            hidden: self.hidden,
            tagged: self.tagged,
            selected: self.selected,
            color: copy_opt(&self.color),
            target: copy_opt(&self.target),
        }
    }

    pub fn is_tagged(&self) -> (r: bool)
        ensures
            r == self.tagged,
    {
        self.tagged
    }

    pub fn is_selected(&self) -> (r: bool)
        ensures
            r == self.selected,
    {
        self.selected
    }

    pub fn toggle_selection(&mut self)
        ensures
            final(self).selected == !old(self).selected,
            (File { selected: old(self).selected, ..*final(self) }).same_as(*old(self)),
    {
        self.selected = !self.selected;
    }

    pub fn toggle_tag(&mut self)
        ensures
            final(self).tagged == !old(self).tagged,
            (File { tagged: old(self).tagged, ..*final(self) }).same_as(*old(self)),
    {
        self.tagged = !self.tagged;
    }

    /// The size scaled down by 1024 while above it, with its unit; zero and no
    /// unit where the size is unknown.
    pub fn calculate_size(&self) -> (r: (u64, String))
        ensures
            match self.size {
                Some(b) => r.0 as nat == scaled(b as nat).0 && r.1@ == unit_label(
                    scaled(b as nat).1,
                ),
                None => r.0 == 0 && r.1@ == ""@,
            },
    {
        match self.size {
            None => (0, String::from_str("")),
            Some(b) => {
                let mut size: u64 = b;
                let mut unit: u64 = 0;
                while size > 1024
                    invariant
                        unit <= 6,
                        size <= size_cap(unit as nat),
                        scaled(b as nat).0 == scaled(size as nat).0,
                        scaled(b as nat).1 == scaled(size as nat).1 + unit,
                    decreases size,
                {
                    assert(size / 1024 <= size_cap(unit as nat) / 1024) by (nonlinear_arith)
                        requires
                            size <= size_cap(unit as nat),
                    ;
                    size = size / 1024;
                    unit = unit + 1;
                }
                (size, unit_string(unit))
            },
        }
    }

    /// The path two levels up, where there is one.
    pub fn grand_parent(&self) -> (r: Option<String>)
        ensures
            opt_view(r) == match parent_of(self.path@) {
                Some(p) => parent_of(p),
                None => None,
            },
    {
        match path_parent(self.path.as_str()) {
            Some(p) => path_parent(p.as_str()),
            None => None,
        }
    }

    pub fn path(&self) -> (r: String)
        ensures
            r@ == self.path@,
    {
        self.path.clone()
    }
}

/// The largest size that can still be divided `u` times by 1024 within a `u64`.
pub open spec fn size_cap(u: nat) -> nat {
    if u == 0 {
        18446744073709551615
    } else if u == 1 {
        18014398509481983
    } else if u == 2 {
        17592186044415
    } else if u == 3 {
        17179869183
    } else if u == 4 {
        16777215
    } else if u == 5 {
        16383
    } else {
        15
    }
}

/// A size divided by 1024 while it is above 1024, with the number of divisions.
pub open spec fn scaled(n: nat) -> (nat, nat)
    decreases n,
{
    if n > 1024 {
        let r = scaled(n / 1024);
        (r.0, r.1 + 1)
    } else {
        (n, 0)
    }
}

/// The unit of a size divided `u` times by 1024.
pub open spec fn unit_label(u: nat) -> Seq<char> {
    if u == 1 {
        " KB"@
    } else if u == 2 {
        " MB"@
    } else if u == 3 {
        " GB"@
    } else if u == 4 {
        " TB"@
    } else if u == 5 {
        " PB"@
    } else if u == 6 {
        " EB"@
    } else {
        ""@
    }
}

fn unit_string(u: u64) -> (r: String)
    ensures
        r@ == unit_label(u as nat),
{
    if u == 1 {
        String::from_str(" KB")
    } else if u == 2 {
        String::from_str(" MB")
    } else if u == 3 {
        String::from_str(" GB")
    } else if u == 4 {
        String::from_str(" TB")
    } else if u == 5 {
        String::from_str(" PB")
    } else if u == 6 {
        String::from_str(" EB")
    } else {
        String::from_str("")
    }
}

/// The parent of a path, as `std::path::Path::parent` gives it.
pub uninterp spec fn parent_of(p: Seq<char>) -> Option<Seq<char>>;

/// The lower-case form of a text, as `str::to_lowercase` gives it.
pub uninterp spec fn lower_of(s: Seq<char>) -> Seq<char>;

/// `f` occurs in `s` as a contiguous run.
pub open spec fn contains(s: Seq<char>, f: Seq<char>) -> bool {
    exists|i: int| 0 <= i && i + f.len() <= s.len() && #[trigger] s.subrange(i, i + f.len()) == f
}

/// Relies on std::path::Path::parent: the path without its last component,
/// `None` for a root or an empty path. A path made from a `str` converts back
/// without loss.
#[verifier::external_body]
fn path_parent(p: &str) -> (r: Option<String>)
    ensures
        opt_view(r) == parent_of(p@),
{
    std::path::Path::new(p).parent().map(|q| q.to_string_lossy().into_owned())
}

/// Relies on str::contains with a `&str` pattern: whether `f` is a substring of `s`.
#[verifier::external_body]
pub(crate) fn text_contains(s: &str, f: &str) -> (r: bool)
    ensures
        r == contains(s@, f@),
{
    s.contains(f)
}

/// Relies on str::to_lowercase: the result depends on the characters alone.
#[verifier::external_body]
pub(crate) fn lowercase(s: &str) -> (r: String)
    ensures
        r@ == lower_of(s@),
{
    s.to_lowercase()
}


/// What decides the arrangement of a listing: the sort key, reversal,
/// directories first, whether hidden entries are shown, and the filter.
pub type Criteria = (SortBy, bool, bool, bool, Option<Seq<char>>);

/// `a` comes strictly before `b` in lexicographic order of code points.
pub open spec fn text_less(a: Seq<char>, b: Seq<char>) -> bool
    decreases a.len(),
{
    if a.len() == 0 {
        b.len() > 0
    } else if b.len() == 0 {
        false
    } else if a[0] != b[0] {
        (a[0] as u32) < (b[0] as u32)
    } else {
        text_less(a.drop_first(), b.drop_first())
    }
}

/// `a` comes strictly before `b` by the sort key alone.
pub open spec fn key_before(a: Key, b: Key, by: SortBy) -> bool {
    match by {
        SortBy::Name => text_less(a.0, b.0),
        SortBy::Size => a.1 < b.1,
        SortBy::MTime => a.2 > b.2,
    }
}

/// `a` comes strictly before `b` under the criteria: directories first where
/// asked, then by the key, reversed where asked. Newest first by time.
pub open spec fn before(a: Key, b: Key, c: Criteria) -> bool {
    if c.2 && a.3 != b.3 {
        a.3
    } else if c.1 {
        key_before(b, a, c.0)
    } else {
        key_before(a, b, c.0)
    }
}

/// An entry is shown where it is not hidden or hidden ones are shown, and its
/// name holds the filter.
pub open spec fn shown(k: Key, c: Criteria) -> bool {
    &&& (c.3 || !k.4)
    &&& match c.4 {
        Some(f) => contains(k.0, f),
        None => true,
    }
}

/// Where entry `i` goes into the arrangement `o`: before the first entry that
/// it comes strictly before, else at the end.
pub open spec fn insert_pos(o: Seq<usize>, i: int, ks: Seq<Key>, c: Criteria) -> nat
    decreases o.len(),
{
    if o.len() == 0 {
        0
    } else if before(ks[i], ks[o[0] as int], c) {
        0
    } else {
        1 + insert_pos(o.drop_first(), i, ks, c)
    }
}

/// The arrangement of the first `n` entries: the positions of those shown,
/// each inserted in listing order after all that it does not come before.
pub open spec fn arranged(ks: Seq<Key>, c: Criteria, n: nat) -> Seq<usize>
    decreases n,
{
    if n == 0 {
        seq![]
    } else {
        let o = arranged(ks, c, (n - 1) as nat);
        if shown(ks[n - 1], c) {
            o.insert(insert_pos(o, n - 1, ks, c) as int, (n - 1) as usize)
        } else {
            o
        }
    }
}

/// The entries of `fs` at the positions `o`.
pub open spec fn pick(fs: Seq<File>, o: Seq<usize>) -> Seq<File> {
    o.map_values(|i: usize| fs[i as int])
}

pub open spec fn keys_of(fs: Seq<File>) -> Seq<Key> {
    fs.map_values(|f: File| f.key())
}

proof fn lemma_insert_pos_bound(o: Seq<usize>, i: int, ks: Seq<Key>, c: Criteria)
    ensures
        insert_pos(o, i, ks, c) <= o.len(),
    decreases o.len(),
{
    if o.len() > 0 {
        lemma_insert_pos_bound(o.drop_first(), i, ks, c);
    }
}

/// A listing with its arrangement for display.
pub struct Files {
    /// The entries, in the order they were listed.
    pub files: Vec<File>,
    /// Positions into `files` of the entries shown, in display order.
    pub order: Vec<usize>,
    pub sort: SortBy,
    pub reverse: bool,
    pub dirs_first: bool,
    pub show_hidden: bool,
    pub filter: Option<String>,
    /// Set when the arrangement changed since the last render.
    pub dirty: bool,
}

impl Files {
    pub open spec fn criteria(self) -> Criteria {
        (self.sort, self.reverse, self.dirs_first, self.show_hidden, opt_view(self.filter))
    }

    pub open spec fn keys(self) -> Seq<Key> {
        keys_of(self.files@)
    }

    /// The arrangement of the entries under criteria `c`.
    pub open spec fn arranged_by(self, c: Criteria) -> Seq<usize> {
        arranged(self.keys(), c, self.files@.len())
    }

    /// The arrangement that the entries and the criteria give.
    pub open spec fn spec_arranged(self) -> Seq<usize> {
        arranged(self.keys(), self.criteria(), self.files@.len())
    }

    pub open spec fn wf(self) -> bool {
        &&& self.order@ == self.spec_arranged()
        &&& self.files@.len() + 3 <= usize::MAX
    }

    /// The entries shown, in display order.
    pub open spec fn shown_files(self) -> Seq<File> {
        pick(self.files@, self.order@)
    }

    /// Number of entries shown.
    pub open spec fn spec_len(self) -> nat {
        self.order@.len()
    }
}

pub proof fn lemma_arranged_bound(ks: Seq<Key>, c: Criteria, n: nat)
    requires
        n <= ks.len(),
    ensures
        forall|j: int| 0 <= j < arranged(ks, c, n).len() ==> arranged(ks, c, n)[j] < n,
    decreases n,
{
    if n > 0 {
        lemma_arranged_bound(ks, c, (n - 1) as nat);
        let o = arranged(ks, c, (n - 1) as nat);
        lemma_insert_pos_bound(o, n - 1, ks, c);
    }
}

/// Entries with the same keys arrange alike.
proof fn lemma_same_keys(a: Seq<File>, b: Seq<File>)
    requires
        a.len() == b.len(),
        forall|i: int| 0 <= i < a.len() ==> (#[trigger] a[i]).key() == b[i].key(),
    ensures
        keys_of(a) == keys_of(b),
{
    assert(keys_of(a) =~= keys_of(b));
}


proof fn lemma_text_less_skip(a: Seq<char>, b: Seq<char>, i: int)
    requires
        0 <= i < a.len(),
        i < b.len(),
        a[i] == b[i],
    ensures
        text_less(a.skip(i), b.skip(i)) == text_less(a.skip(i + 1), b.skip(i + 1)),
{
    assert(a.skip(i).drop_first() =~= a.skip(i + 1));
    assert(b.skip(i).drop_first() =~= b.skip(i + 1));
}

/// Whether `a` comes strictly before `b` in lexicographic order of code points.
pub fn name_less(a: &String, b: &String) -> (r: bool)
    ensures
        r == text_less(a@, b@),
{
    let la = a.as_str().unicode_len();
    let lb = b.as_str().unicode_len();
    let mut i: usize = 0;
    assert(a@.skip(0) =~= a@ && b@.skip(0) =~= b@);
    while i < la && i < lb
        invariant
            la == a@.len(),
            lb == b@.len(),
            i <= la,
            i <= lb,
            text_less(a@, b@) == text_less(a@.skip(i as int), b@.skip(i as int)),
        decreases la - i,
    {
        let x = a.as_str().get_char(i);
        let y = b.as_str().get_char(i);
        if x != y {
            return (x as u32) < (y as u32);
        }
        proof {
            lemma_text_less_skip(a@, b@, i as int);
        }
        i = i + 1;
    }
    i < lb
}

proof fn lemma_insert_pos_skip(o: Seq<usize>, j: int, i: int, ks: Seq<Key>, c: Criteria)
    requires
        0 <= j < o.len(),
        !before(ks[i], ks[o[j] as int], c),
    ensures
        insert_pos(o.skip(j), i, ks, c) == 1 + insert_pos(o.skip(j + 1), i, ks, c),
{
    assert(o.skip(j).drop_first() =~= o.skip(j + 1));
}

impl Files {
    /// Whether entry `a` comes strictly before entry `b` under the criteria.
    pub fn precedes(&self, a: &File, b: &File) -> (r: bool)
        ensures
            r == before(a.key(), b.key(), self.criteria()),
    {
        if self.dirs_first && a.is_dir != b.is_dir {
            a.is_dir
        } else {
            let (x, y) = if self.reverse {
                (b, a)
            } else {
                (a, b)
            };
            match self.sort {
                SortBy::Name => name_less(&x.name, &y.name),
                SortBy::Size => {
                    let sx: u64 = match x.size {
                        Some(s) => s,
                        None => 0,
                    };
                    let sy: u64 = match y.size {
                        Some(s) => s,
                        None => 0,
                    };
                    sx < sy
                },
                SortBy::MTime => x.mtime > y.mtime,
            }
        }
    }

    /// Whether an entry is shown under the criteria.
    pub fn is_shown(&self, f: &File) -> (r: bool)
        ensures
            r == shown(f.key(), self.criteria()),
    {
        if !self.show_hidden && f.hidden {
            return false;
        }
        match &self.filter {
            Some(flt) => text_contains(f.name.as_str(), flt.as_str()),
            None => true,
        }
    }

    fn find_insert_pos(&self, o: &Vec<usize>, i: usize) -> (r: usize)
        requires
            i < self.files@.len(),
            forall|j: int| 0 <= j < o@.len() ==> o@[j] < self.files@.len(),
        ensures
            r == insert_pos(o@, i as int, self.keys(), self.criteria()),
    {
        let ghost ks = self.keys();
        let ghost c = self.criteria();
        let mut j: usize = 0;
        assert(o@.skip(0) =~= o@);
        while j < o.len()
            invariant
                j <= o@.len(),
                i < self.files@.len(),
                ks == self.keys(),
                c == self.criteria(),
                forall|k: int| 0 <= k < o@.len() ==> o@[k] < self.files@.len(),
                insert_pos(o@, i as int, ks, c) == j + insert_pos(o@.skip(j as int), i as int, ks, c),
            decreases o@.len() - j,
        {
            if self.precedes(&self.files[i], &self.files[o[j]]) {
                return j;
            }
            proof {
                lemma_insert_pos_skip(o@, j as int, i as int, ks, c);
            }
            j = j + 1;
        }
        j
    }

    /// Rebuilds the arrangement from the entries and the criteria.
    pub fn sort(&mut self)
        ensures
            final(self).order@ == final(self).spec_arranged(),
            final(self).files == old(self).files,
            final(self).criteria() == old(self).criteria(),
            final(self).filter == old(self).filter,
            final(self).dirty == old(self).dirty,
    {
        let ghost ks = self.keys();
        let ghost c = self.criteria();
        let mut o: Vec<usize> = Vec::new();
        let mut i: usize = 0;
        while i < self.files.len()
            invariant
                i <= self.files@.len(),
                ks == self.keys(),
                c == self.criteria(),
                o@ == arranged(ks, c, i as nat),
            decreases self.files@.len() - i,
        {
            proof {
                lemma_arranged_bound(ks, c, i as nat);
            }
            if self.is_shown(&self.files[i]) {
                let p = self.find_insert_pos(&o, i);
                proof {
                    lemma_insert_pos_bound(o@, i as int, ks, c);
                }
                o.insert(p, i);
            }
            i = i + 1;
        }
        self.order = o;
    }
}


/// Number of entries among the first `n` that are shown.
pub open spec fn shown_count(ks: Seq<Key>, c: Criteria, n: nat) -> nat
    decreases n,
{
    if n == 0 {
        0
    } else {
        shown_count(ks, c, (n - 1) as nat) + if shown(ks[n - 1], c) {
            1nat
        } else {
            0nat
        }
    }
}

/// How many entries are arranged depends on what is shown, not on the order.
pub proof fn lemma_arranged_len(ks: Seq<Key>, c: Criteria, n: nat)
    requires
        n <= ks.len(),
    ensures
        arranged(ks, c, n).len() == shown_count(ks, c, n),
    decreases n,
{
    if n > 0 {
        lemma_arranged_len(ks, c, (n - 1) as nat);
        lemma_insert_pos_bound(arranged(ks, c, (n - 1) as nat), n - 1, ks, c);
    }
}

proof fn lemma_shown_count_same(ks: Seq<Key>, c: Criteria, d: Criteria, n: nat)
    requires
        c.3 == d.3,
        c.4 == d.4,
    ensures
        shown_count(ks, c, n) == shown_count(ks, d, n),
    decreases n,
{
    if n > 0 {
        lemma_shown_count_same(ks, c, d, (n - 1) as nat);
    }
}

/// Arrangements under criteria that show the same entries have the same length.
pub proof fn lemma_same_len(ks: Seq<Key>, c: Criteria, d: Criteria, n: nat)
    requires
        n <= ks.len(),
        c.3 == d.3,
        c.4 == d.4,
    ensures
        arranged(ks, c, n).len() == arranged(ks, d, n).len(),
{
    lemma_arranged_len(ks, c, n);
    lemma_arranged_len(ks, d, n);
    lemma_shown_count_same(ks, c, d, n);
}

/// The first position in `fs` whose entry holds the values `v`, if any.
pub open spec fn locate(fs: Seq<File>, v: Value) -> Option<nat>
    decreases fs.len(),
{
    if fs.len() == 0 {
        None
    } else {
        match locate(fs.drop_last(), v) {
            Some(k) => Some(k),
            None => if fs.last().value() == v {
                Some((fs.len() - 1) as nat)
            } else {
                None
            },
        }
    }
}

pub proof fn lemma_locate(fs: Seq<File>, v: Value)
    ensures
        match locate(fs, v) {
            Some(k) => k < fs.len() && fs[k as int].value() == v && forall|j: int|
                0 <= j < k ==> (#[trigger] fs[j]).value() != v,
            None => forall|j: int| 0 <= j < fs.len() ==> (#[trigger] fs[j]).value() != v,
        },
    decreases fs.len(),
{
    if fs.len() > 0 {
        lemma_locate(fs.drop_last(), v);
        assert(forall|j: int| 0 <= j < fs.len() - 1 ==> fs.drop_last()[j] == fs[j]);
    }
}

pub proof fn lemma_locate_unique(fs: Seq<File>, v: Value, k: int)
    requires
        0 <= k < fs.len(),
        fs[k].value() == v,
        forall|j: int| 0 <= j < k ==> (#[trigger] fs[j]).value() != v,
    ensures
        locate(fs, v) == Some(k as nat),
{
    lemma_locate(fs, v);
}

impl Files {
    /// A listing ordered by name, directories first, hidden entries and no filter.
    pub fn new(files: Vec<File>) -> (r: Files)
        requires
            files@.len() + 3 <= usize::MAX,
        ensures
            r.wf(),
            r.files@ == files@,
            r.criteria() == (SortBy::Name, false, true, false, None::<Seq<char>>),
            !r.dirty,
    {
        let mut r = Files {
            files,
            order: Vec::new(),
            sort: SortBy::Name,
            reverse: false,
            dirs_first: true,
            show_hidden: false,
            filter: None,
            dirty: false,
        };
        r.sort();
        r
    }

    /// Number of entries shown.
    pub fn len(&self) -> (r: usize)
        ensures
            r == self.spec_len(),
    {
        self.order.len()
    }

    /// The entry shown at `i`.
    pub fn get(&self, i: usize) -> (r: &File)
        requires
            self.wf(),
            i < self.spec_len(),
        ensures
            *r == self.shown_files()[i as int],
    {
        proof {
            lemma_arranged_bound(self.keys(), self.criteria(), self.files@.len());
        }
        &self.files[self.order[i]]
    }

    /// The first display position of an entry that holds the values of `f`.
    pub fn position(&self, f: &File) -> (r: Option<usize>)
        requires
            self.wf(),
        ensures
            r matches Some(k) ==> locate(self.shown_files(), f.value()) == Some(k as nat),
            r is None ==> locate(self.shown_files(), f.value()) is None,
    {
        proof {
            lemma_arranged_bound(self.keys(), self.criteria(), self.files@.len());
            lemma_locate(self.shown_files(), f.value());
        }
        let mut i: usize = 0;
        while i < self.order.len()
            invariant
                self.wf(),
                i <= self.order@.len(),
                forall|k: int| 0 <= k < self.order@.len() ==> self.order@[k] < self.files@.len(),
                forall|j: int| 0 <= j < i ==> (#[trigger] self.shown_files()[j]).value() != f.value(),
            decreases self.order@.len() - i,
        {
            if self.files[self.order[i]].same(f) {
                proof {
                    lemma_locate_unique(self.shown_files(), f.value(), i as int);
                }
                return Some(i);
            }
            i = i + 1;
        }
        None
    }

    /// Moves to the next sort key; the arrangement is rebuilt by `sort`.
    pub fn cycle_sort(&mut self)
        ensures
            final(self).sort == old(self).sort.spec_next(),
            final(self).files == old(self).files,
            final(self).order == old(self).order,
            final(self).reverse == old(self).reverse,
            final(self).dirs_first == old(self).dirs_first,
            final(self).show_hidden == old(self).show_hidden,
            final(self).filter == old(self).filter,
            final(self).dirty == old(self).dirty,
    {
        self.sort = self.sort.next();
    }

    /// Flips the direction; the arrangement is rebuilt by `sort`.
    pub fn reverse_sort(&mut self)
        ensures
            final(self).reverse == !old(self).reverse,
            final(self).files == old(self).files,
            final(self).order == old(self).order,
            final(self).sort == old(self).sort,
            final(self).dirs_first == old(self).dirs_first,
            final(self).show_hidden == old(self).show_hidden,
            final(self).filter == old(self).filter,
            final(self).dirty == old(self).dirty,
    {
        self.reverse = !self.reverse;
    }

    /// Flips whether hidden entries are shown; the arrangement is rebuilt by
    /// `reload_files`.
    pub fn toggle_hidden(&mut self)
        ensures
            final(self).show_hidden == !old(self).show_hidden,
            final(self).files == old(self).files,
            final(self).order == old(self).order,
            final(self).sort == old(self).sort,
            final(self).reverse == old(self).reverse,
            final(self).dirs_first == old(self).dirs_first,
            final(self).filter == old(self).filter,
            final(self).dirty == old(self).dirty,
    {
        self.show_hidden = !self.show_hidden;
    }

    /// Rebuilds what is shown and marks the listing changed.
    pub fn reload_files(&mut self)
        ensures
            final(self).order@ == final(self).spec_arranged(),
            final(self).files == old(self).files,
            final(self).criteria() == old(self).criteria(),
            final(self).filter == old(self).filter,
            final(self).dirty,
    {
        self.sort();
        self.dirty = true;
    }

    /// Sets or clears the filter and rebuilds what is shown.
    pub fn set_filter(&mut self, filter: Option<String>)
        requires
            old(self).wf(),
        ensures
            final(self).wf(),
            final(self).files == old(self).files,
            final(self).criteria() == (old(self).sort, old(self).reverse, old(self).dirs_first, old(
                self).show_hidden, opt_view(filter)),
            final(self).dirty,
    {
        self.filter = filter;
        self.sort();
        self.dirty = true;
    }

    pub fn get_filter(&self) -> (r: Option<String>)
        ensures
            opt_view(r) == opt_view(self.filter),
    {
        copy_opt(&self.filter)
    }

    /// Flips the tag of the entry shown at `i`.
    pub fn toggle_tag_at(&mut self, i: usize)
        requires
            old(self).wf(),
            i < old(self).spec_len(),
        ensures
            final(self).wf(),
            final(self).order == old(self).order,
            final(self).criteria() == old(self).criteria(),
            final(self).dirty == old(self).dirty,
            final(self).files@.len() == old(self).files@.len(),
            final(self).shown_files()[i as int].tagged == !old(self).shown_files()[i as int].tagged,
            (File { tagged: old(self).shown_files()[i as int].tagged, ..final(self).shown_files()[i as int] }).same_as(old(self).shown_files()[i as int]),
            forall|j: int| 0 <= j < old(self).files@.len() && j != old(self).order@[i as int] ==> #[trigger] final(self).files@[j] == old(self).files@[j],
    {
        proof {
            lemma_arranged_bound(self.keys(), self.criteria(), self.files@.len());
        }
        let k = self.order[i];
        let ghost before_files = self.files@;
        self.files[k].toggle_tag();
        proof {
            lemma_same_keys(self.files@, before_files);
        }
    }

    /// Flips the selection mark of the entry shown at `i`.
    pub fn toggle_selection_at(&mut self, i: usize)
        requires
            old(self).wf(),
            i < old(self).spec_len(),
        ensures
            final(self).wf(),
            final(self).order == old(self).order,
            final(self).criteria() == old(self).criteria(),
            final(self).dirty == old(self).dirty,
            final(self).files@.len() == old(self).files@.len(),
            final(self).shown_files()[i as int].selected == !old(self).shown_files()[i as int].selected,
            (File { selected: old(self).shown_files()[i as int].selected, ..final(self).shown_files()[i as int] }).same_as(old(self).shown_files()[i as int]),
            forall|j: int| 0 <= j < old(self).files@.len() && j != old(self).order@[i as int] ==> #[trigger] final(self).files@[j] == old(self).files@[j],
    {
        proof {
            lemma_arranged_bound(self.keys(), self.criteria(), self.files@.len());
        }
        let k = self.order[i];
        let ghost before_files = self.files@;
        self.files[k].toggle_selection();
        proof {
            lemma_same_keys(self.files@, before_files);
        }
    }
}


proof fn lemma_shown_count_bound(ks: Seq<Key>, c: Criteria, n: nat)
    ensures
        shown_count(ks, c, n) <= n,
    decreases n,
{
    if n > 0 {
        lemma_shown_count_bound(ks, c, (n - 1) as nat);
    }
}

/// No more entries are shown than are listed.
pub proof fn lemma_len_bound(f: Files)
    requires
        f.wf(),
    ensures
        f.spec_len() <= f.files@.len(),
{
    lemma_arranged_len(f.keys(), f.criteria(), f.files@.len());
    lemma_shown_count_bound(f.keys(), f.criteria(), f.files@.len());
}


proof fn lemma_insert_members(o: Seq<usize>, p: int, x: usize)
    requires
        0 <= p <= o.len(),
    ensures
        forall|y: usize| o.insert(p, x).contains(y) <==> (o.contains(y) || y == x),
{
    let q = o.insert(p, x);
    assert forall|y: usize| q.contains(y) <==> (o.contains(y) || y == x) by {
        if q.contains(y) {
            let j = choose|j: int| 0 <= j < q.len() && q[j] == y;
            if j < p {
                assert(o[j] == y);
            } else if j > p {
                assert(o[j - 1] == y);
            }
        }
        if o.contains(y) {
            let j = choose|j: int| 0 <= j < o.len() && o[j] == y;
            if j < p {
                assert(q[j] == y);
            } else {
                assert(q[j + 1] == y);
            }
        }
        if y == x {
            assert(q[p] == y);
        }
    }
}

/// The arrangement holds each shown entry once, and nothing else.
pub proof fn lemma_arranged_members(ks: Seq<Key>, c: Criteria, n: nat)
    requires
        n <= ks.len(),
        n <= usize::MAX,
    ensures
        forall|x: usize| #[trigger] arranged(ks, c, n).contains(x) <==> (x < n && shown(ks[x as int], c)),
        arranged(ks, c, n).no_duplicates(),
    decreases n,
{
    if n > 0 {
        lemma_arranged_members(ks, c, (n - 1) as nat);
        lemma_arranged_bound(ks, c, (n - 1) as nat);
        let o = arranged(ks, c, (n - 1) as nat);
        if shown(ks[n - 1], c) {
            lemma_insert_pos_bound(o, n - 1, ks, c);
            let p = insert_pos(o, n - 1, ks, c) as int;
            lemma_insert_members(o, p, (n - 1) as usize);
            let q = o.insert(p, (n - 1) as usize);
            assert forall|a: int, b: int| 0 <= a < q.len() && 0 <= b < q.len() && a != b implies q[a]
                != q[b] by {
                if a == p || b == p {
                    let other = if a == p { b } else { a };
                    let j = if other < p { other } else { other - 1 };
                    assert(q[other] == o[j]);
                    assert(o[j] < n - 1);
                } else {
                    let ja = if a < p { a } else { a - 1 };
                    let jb = if b < p { b } else { b - 1 };
                    assert(q[a] == o[ja] && q[b] == o[jb]);
                }
            }
        }
        assert forall|x: usize| #[trigger] arranged(ks, c, n).contains(x) <==> (x < n && shown(ks[x as int], c)) by {
            assert(o.contains(x) <==> (x < n - 1 && shown(ks[x as int], c)));
            if shown(ks[n - 1], c) {
                let p = insert_pos(o, n - 1, ks, c) as int;
                lemma_insert_pos_bound(o, n - 1, ks, c);
                lemma_insert_members(o, p, (n - 1) as usize);
                assert(arranged(ks, c, n) == o.insert(p, (n - 1) as usize));
                assert(o.insert(p, (n - 1) as usize).contains(x) <==> (o.contains(x) || x == (n - 1) as usize));
            } else {
                assert(arranged(ks, c, n) == o);
            }
        }
    }
}

/// No two entries hold the same values.
pub open spec fn distinct_values(fs: Seq<File>) -> bool {
    forall|a: int, b: int| 0 <= a < fs.len() && 0 <= b < fs.len() && a != b ==> fs[a].value() != fs[b].value()
}

} // verus!
