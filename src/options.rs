//! Run configuration and the order in which entries are listed.
use vstd::prelude::*;
use crate::column::Column;
use crate::file::{is_hidden, opt_view, File};
use crate::text::{
    compare_text, folded, lemma_seq_lt_irreflexive, lemma_seq_lt_transitive,
    lemma_seq_lt_trichotomy, lower, seq_lt, str_eq,
};

verus! {

/// The attribute that entries are sorted by.
#[derive(Clone, Copy, Debug, PartialEq, Eq, Structural)]
pub enum SortField {
    Name,
    Extension,
    Size,
}

/// The sort field that a word names, if any.
pub open spec fn sort_field_of(word: Seq<char>) -> Option<SortField> {
    if word == "name"@ {
        Some(SortField::Name)
    } else if word == "size"@ {
        Some(SortField::Size)
    } else if word == "ext"@ {
        Some(SortField::Extension)
    } else {
        None
    }
}

impl SortField {
    /// Reads a sort field from `name`, `size` or `ext`; any other word is
    /// refused.
    pub fn from_word(word: String) -> (r: Option<SortField>)
        ensures
            r == sort_field_of(word@),
    {
        let w = word.as_str();
        if str_eq(w, "name") {
            Some(SortField::Name)
        } else if str_eq(w, "size") {
            Some(SortField::Size)
        } else if str_eq(w, "ext") {
            Some(SortField::Extension)
        } else {
            None
        }
    }
}

/// The command-line switches, as the argument parser found them.
#[derive(Debug)]
pub struct Flags {
    pub all: bool,
    pub binary: bool,
    pub group: bool,
    pub header: bool,
    pub inode: bool,
    pub links: bool,
    pub reverse: bool,
    pub blocks: bool,
    /// The word given to the sort switch, if it was given.
    pub sort: Option<String>,
    /// The positional arguments: the directories to list.
    pub free: Vec<String>,
}

/// The configuration of one run.
#[derive(Debug)]
pub struct Options {
    pub show_invisibles: bool,
    pub sort_field: SortField,
    pub reverse: bool,
    pub dirs: Vec<String>,
    pub columns: Vec<Column>,
    pub header: bool,
}

/// The columns that the switches ask for, in their fixed order.
pub open spec fn columns_for(
    inode: bool,
    links: bool,
    binary: bool,
    blocks: bool,
    group: bool,
) -> Seq<Column> {
    (if inode {
        seq![Column::Inode]
    } else {
        seq![]
    }) + seq![Column::Permissions] + (if links {
        seq![Column::HardLinks]
    } else {
        seq![]
    }) + seq![Column::FileSize(binary)] + (if blocks {
        seq![Column::Blocks]
    } else {
        seq![]
    }) + seq![Column::User] + (if group {
        seq![Column::Group]
    } else {
        seq![]
    }) + seq![Column::FileName]
}

/// Whether an entry is listed: hidden entries only when asked for.
pub open spec fn visible(all: bool, f: File) -> bool {
    all || !is_hidden(f.name@)
}

/// What a sort field compares entries by: an optional extension, a name
/// and a number, compared in that order.
pub open spec fn sort_key(field: SortField, f: File) -> (Option<Seq<char>>, Seq<char>, nat) {
    match field {
        SortField::Name => (None, f.name@, 0),
        SortField::Size => (None, Seq::empty(), f.stat.size as nat),
        SortField::Extension => (
            match opt_view(f.ext) {
                None => None,
                Some(e) => Some(lower(e)),
            },
            lower(f.name@),
            0,
        ),
    }
}

/// Order on optional keys: an absent key comes before every present one.
pub open spec fn opt_lt(a: Option<Seq<char>>, b: Option<Seq<char>>) -> bool {
    match (a, b) {
        (None, Some(_)) => true,
        (Some(x), Some(y)) => seq_lt(x, y),
        _ => false,
    }
}

/// Strict lexicographic order on sort keys.
pub open spec fn key_lt(a: (Option<Seq<char>>, Seq<char>, nat), b: (Option<Seq<char>>, Seq<char>, nat)) -> bool {
    opt_lt(a.0, b.0) || (a.0 == b.0 && (seq_lt(a.1, b.1) || (a.1 == b.1 && a.2 < b.2)))
}

/// Entry `i` is listed before entry `j`: its key is smaller, or the keys
/// are equal and it came first.
pub open spec fn precedes(field: SortField, files: Seq<File>, i: int, j: int) -> bool {
    let ki = sort_key(field, files[i]);
    let kj = sort_key(field, files[j]);
    key_lt(ki, kj) || (ki == kj && i < j)
}

/// `s` holds the indices of exactly the visible entries, each once, in
/// sorted order.
pub open spec fn sorted_selection(field: SortField, all: bool, files: Seq<File>, s: Seq<usize>) -> bool {
    &&& forall|k: int| 0 <= k < s.len() ==> #[trigger] s[k] < files.len() && visible(all, files[s[k] as int])
    &&& forall|j: int| 0 <= j < files.len() && visible(all, #[trigger] files[j]) ==> s.contains(j as usize)
    &&& forall|a: int, b: int| 0 <= a < b < s.len() ==> precedes(field, files, #[trigger] s[a] as int, #[trigger] s[b] as int)
}

/// `s` backwards.
pub open spec fn reversed<A>(s: Seq<A>) -> Seq<A> {
    Seq::new(s.len(), |i: int| s[s.len() - 1 - i])
}

/// `r` is the listing order: the sorted selection, reversed when asked for.
pub open spec fn is_listing(field: SortField, all: bool, reverse: bool, files: Seq<File>, r: Seq<usize>) -> bool {
    sorted_selection(field, all, files, if reverse { reversed(r) } else { r })
}

proof fn lemma_key_order(
    a: (Option<Seq<char>>, Seq<char>, nat),
    b: (Option<Seq<char>>, Seq<char>, nat),
)
    ensures
        a == b || key_lt(a, b) || key_lt(b, a),
        !(key_lt(a, b) && key_lt(b, a)),
        !key_lt(a, a),
{
    lemma_seq_lt_trichotomy(a.1, b.1);
    lemma_seq_lt_irreflexive(a.1);
    if let Some(x) = a.0 {
        lemma_seq_lt_irreflexive(x);
    }
    match (a.0, b.0) {
        (Some(x), Some(y)) => {
            lemma_seq_lt_trichotomy(x, y);
            lemma_seq_lt_irreflexive(x);
        },
        _ => {},
    }
}

proof fn lemma_key_transitive(
    a: (Option<Seq<char>>, Seq<char>, nat),
    b: (Option<Seq<char>>, Seq<char>, nat),
    c: (Option<Seq<char>>, Seq<char>, nat),
)
    requires
        key_lt(a, b),
        key_lt(b, c),
    ensures
        key_lt(a, c),
{
    if seq_lt(a.1, b.1) && seq_lt(b.1, c.1) {
        lemma_seq_lt_transitive(a.1, b.1, c.1);
    }
    match (a.0, b.0, c.0) {
        (Some(x), Some(y), Some(z)) => {
            if seq_lt(x, y) && seq_lt(y, z) {
                lemma_seq_lt_transitive(x, y, z);
            }
        },
        _ => {},
    }
}

proof fn lemma_precedes_transitive(field: SortField, files: Seq<File>, i: int, j: int, k: int)
    requires
        precedes(field, files, i, j),
        precedes(field, files, j, k),
    ensures
        precedes(field, files, i, k),
{
    let ki = sort_key(field, files[i]);
    let kj = sort_key(field, files[j]);
    let kk = sort_key(field, files[k]);
    if key_lt(ki, kj) && key_lt(kj, kk) {
        lemma_key_transitive(ki, kj, kk);
    }
}

proof fn lemma_precedes_asymmetric(field: SortField, files: Seq<File>, i: int, j: int)
    ensures
        !(precedes(field, files, i, j) && precedes(field, files, j, i)),
        !precedes(field, files, i, i),
{
    lemma_key_order(sort_key(field, files[i]), sort_key(field, files[j]));
}

/// Two sequences that are sorted by `precedes` and hold the same indices
/// are equal.
proof fn lemma_sorted_unique(field: SortField, files: Seq<File>, s1: Seq<usize>, s2: Seq<usize>)
    requires
        forall|a: int, b: int| 0 <= a < b < s1.len() ==> precedes(field, files, #[trigger] s1[a] as int, #[trigger] s1[b] as int),
        forall|a: int, b: int| 0 <= a < b < s2.len() ==> precedes(field, files, #[trigger] s2[a] as int, #[trigger] s2[b] as int),
        forall|x: usize| s1.contains(x) <==> s2.contains(x),
    ensures
        s1 == s2,
    decreases s1.len(),
{
    if s1.len() == 0 {
        if s2.len() > 0 {
            assert(s2.contains(s2[0]));
        }
        assert(s2.len() == 0);
        assert(s1 =~= s2);
    } else {
        assert(s1.contains(s1[0]));
        let q = choose|q: int| 0 <= q < s2.len() && s2[q] == s1[0];
        assert(s2.contains(s2[0]));
        let p = choose|p: int| 0 <= p < s1.len() && s1[p] == s2[0];
        if q > 0 && p > 0 {
            assert(precedes(field, files, s2[0] as int, s2[q] as int));
            assert(precedes(field, files, s1[0] as int, s1[p] as int));
            lemma_precedes_asymmetric(field, files, s1[0] as int, s2[0] as int);
        } else if q > 0 {
            assert(s1[0] == s2[0]);
        }
        assert(s1[0] == s2[0]);
        let t1 = s1.drop_first();
        let t2 = s2.drop_first();
        assert forall|x: usize| t1.contains(x) <==> t2.contains(x) by {
            if t1.contains(x) {
                let i = choose|i: int| 0 <= i < t1.len() && t1[i] == x;
                assert(s1[i + 1] == x);
                assert(s1.contains(x));
                let j = choose|j: int| 0 <= j < s2.len() && s2[j] == x;
                assert(precedes(field, files, s1[0] as int, s1[i + 1] as int));
                lemma_precedes_asymmetric(field, files, s1[0] as int, s1[0] as int);
                assert(j != 0);
                assert(t2[j - 1] == x);
            }
            if t2.contains(x) {
                let i = choose|i: int| 0 <= i < t2.len() && t2[i] == x;
                assert(s2[i + 1] == x);
                assert(s2.contains(x));
                let j = choose|j: int| 0 <= j < s1.len() && s1[j] == x;
                assert(precedes(field, files, s2[0] as int, s2[i + 1] as int));
                lemma_precedes_asymmetric(field, files, s2[0] as int, s2[0] as int);
                assert(j != 0);
                assert(t1[j - 1] == x);
            }
        }
        assert forall|a: int, b: int| 0 <= a < b < t1.len() implies precedes(field, files, #[trigger] t1[a] as int, #[trigger] t1[b] as int) by {
            assert(s1[a + 1] == t1[a] && s1[b + 1] == t1[b]);
        }
        assert forall|a: int, b: int| 0 <= a < b < t2.len() implies precedes(field, files, #[trigger] t2[a] as int, #[trigger] t2[b] as int) by {
            assert(s2[a + 1] == t2[a] && s2[b + 1] == t2[b]);
        }
        lemma_sorted_unique(field, files, t1, t2);
        assert(s1 =~= seq![s1[0]] + t1);
        assert(s2 =~= seq![s2[0]] + t2);
    }
}

/// There is one listing order only: two orders that both list `files`
/// under the same configuration are equal.
pub proof fn lemma_listing_unique(
    field: SortField,
    all: bool,
    reverse: bool,
    files: Seq<File>,
    r1: Seq<usize>,
    r2: Seq<usize>,
)
    requires
        is_listing(field, all, reverse, files, r1),
        is_listing(field, all, reverse, files, r2),
    ensures
        r1 == r2,
{
    let s1 = if reverse { reversed(r1) } else { r1 };
    let s2 = if reverse { reversed(r2) } else { r2 };
    assert forall|x: usize| s1.contains(x) <==> s2.contains(x) by {
        if s1.contains(x) {
            let k = choose|k: int| 0 <= k < s1.len() && s1[k] == x;
            assert(x < files.len() && visible(all, files[x as int]));
        }
        if s2.contains(x) {
            let k = choose|k: int| 0 <= k < s2.len() && s2[k] == x;
            assert(x < files.len() && visible(all, files[x as int]));
        }
    }
    lemma_sorted_unique(field, files, s1, s2);
    if reverse {
        assert(r1 =~= reversed(s1));
        assert(r2 =~= reversed(s2));
    }
}

/// Listing in reverse gives the forward listing backwards.
pub proof fn lemma_reverse_listing(
    field: SortField,
    all: bool,
    files: Seq<File>,
    forward: Seq<usize>,
    backward: Seq<usize>,
)
    requires
        is_listing(field, all, false, files, forward),
        is_listing(field, all, true, files, backward),
    ensures
        reversed(forward) == backward,
{
    assert(is_listing(field, all, false, files, reversed(backward)));
    lemma_listing_unique(field, all, false, files, forward, reversed(backward));
    assert(reversed(reversed(backward)) =~= backward);
}

/// Keeping the visible entries of a list that holds only visible entries
/// changes nothing: the hidden-file filter is idempotent.
pub proof fn lemma_filter_idempotent(all: bool, files: Seq<File>)
    ensures
        files.filter(|f: File| visible(all, f)).filter(|f: File| visible(all, f))
            == files.filter(|f: File| visible(all, f)),
    decreases files.len(),
{
    reveal(Seq::filter);
    let pred = |f: File| visible(all, f);
    if files.len() > 0 {
        lemma_filter_idempotent(all, files.drop_last());
        let once = files.filter(pred);
        if pred(files.last()) {
            assert(once.drop_last() =~= files.drop_last().filter(pred));
        } else {
            assert(once == files.drop_last().filter(pred));
        }
    }
}

/// Three-way comparison of two entries by their sort keys.
pub fn compare_files(field: SortField, a: &File, b: &File) -> (r: i8)
    ensures
        (r < 0) == key_lt(sort_key(field, *a), sort_key(field, *b)),
        (r == 0) == (sort_key(field, *a) == sort_key(field, *b)),
        (r > 0) == key_lt(sort_key(field, *b), sort_key(field, *a)),
{
    let ghost ka = sort_key(field, *a);
    let ghost kb = sort_key(field, *b);
    proof {
        lemma_key_order(ka, kb);
    }
    match field {
        SortField::Name => {
            let r = compare_text(a.name.as_str(), b.name.as_str(), false);
            assert(folded(a.name@, false) == a.name@);
            assert(folded(b.name@, false) == b.name@);
            r
        },
        SortField::Size => {
            if a.stat.size < b.stat.size {
                -1
            } else if a.stat.size == b.stat.size {
                0
            } else {
                1
            }
        },
        SortField::Extension => {
            let e: i8 = match (&a.ext, &b.ext) {
                (None, None) => 0,
                (None, Some(_)) => -1,
                (Some(_), None) => 1,
                (Some(x), Some(y)) => compare_text(x.as_str(), y.as_str(), true),
            };
            if e != 0 {
                e
            } else {
                compare_text(a.name.as_str(), b.name.as_str(), true)
            }
        },
    }
}

impl Options {
    /// The columns that the switches ask for.
    pub fn columns(inode: bool, links: bool, binary: bool, blocks: bool, group: bool) -> (r: Vec<Column>)
        ensures
            r@ == columns_for(inode, links, binary, blocks, group),
    {
        let mut columns: Vec<Column> = Vec::new();
        if inode {
            columns.push(Column::Inode);
        }
        columns.push(Column::Permissions);
        if links {
            columns.push(Column::HardLinks);
        }
        columns.push(Column::FileSize(binary));
        if blocks {
            columns.push(Column::Blocks);
        }
        columns.push(Column::User);
        if group {
            columns.push(Column::Group);
        }
        columns.push(Column::FileName);
        assert(columns@ =~= columns_for(inode, links, binary, blocks, group));
        columns
    }

    /// Builds the configuration from the switches. The sort field is the
    /// name unless a word was given, and an unknown word is refused: the
    /// error holds it. With no directory named, the current one is listed.
    pub fn from_flags(flags: Flags) -> (r: Result<Options, String>)
        ensures
            match flags.sort {
                Some(w) => sort_field_of(w@) is None <==> r is Err,
                None => r is Ok,
            },
            r is Err ==> (flags.sort is Some && r->Err_0@ == flags.sort->Some_0@),
            r is Ok ==> ({
                let o = r->Ok_0;
                &&& o.show_invisibles == flags.all
                &&& o.reverse == flags.reverse
                &&& o.header == flags.header
                &&& o.sort_field == match flags.sort {
                    Some(w) => sort_field_of(w@)->Some_0,
                    None => SortField::Name,
                }
                &&& o.columns@ == columns_for(flags.inode, flags.links, flags.binary, flags.blocks, flags.group)
                &&& if flags.free@.len() == 0 {
                    o.dirs@.len() == 1 && o.dirs@[0]@ == "."@
                } else {
                    o.dirs@ == flags.free@
                }
            }),
    {
        let sort_field = match flags.sort {
            None => SortField::Name,
            Some(w) => {
                match SortField::from_word(w.clone()) {
                    Some(f) => f,
                    None => {
                        return Err(w);
                    },
                }
            },
        };
        let dirs = if flags.free.len() == 0 {
            let mut d: Vec<String> = Vec::new();
            d.push(String::from_str("."));
            d
        } else {
            flags.free
        };
        let columns = Options::columns(flags.inode, flags.links, flags.binary, flags.blocks, flags.group);
        Ok(Options {
            show_invisibles: flags.all,
            sort_field,
            reverse: flags.reverse,
            dirs,
            columns,
            header: flags.header,
        })
    }

    /// Whether `f` is listed under this configuration.
    pub fn should_display(&self, f: &File) -> (r: bool)
        ensures
            r == visible(self.show_invisibles, *f),
    {
        if self.show_invisibles {
            true
        } else {
            !f.is_dotfile()
        }
    }

    /// The indices of the entries to list, in listing order: the visible
    /// entries sorted by the configured field (ties kept in input order),
    /// reversed as a whole when asked for.
    pub fn listing_order(&self, files: &Vec<File>) -> (r: Vec<usize>)
        ensures
            is_listing(self.sort_field, self.show_invisibles, self.reverse, files@, r@),
    {
        let field = self.sort_field;
        let all = self.show_invisibles;
        let ghost fs = files@;
        let mut out: Vec<usize> = Vec::new();
        let mut i: usize = 0;
        while i < files.len()
            invariant
                fs == files@,
                field == self.sort_field,
                all == self.show_invisibles,
                i <= fs.len(),
                forall|k: int| 0 <= k < out@.len() ==> #[trigger] out@[k] < i && visible(all, fs[out@[k] as int]),
                forall|j: int| 0 <= j < i && visible(all, #[trigger] fs[j]) ==> out@.contains(j as usize),
                forall|a: int, b: int| 0 <= a < b < out@.len() ==> precedes(field, fs, #[trigger] out@[a] as int, #[trigger] out@[b] as int),
            decreases files.len() - i,
        {
            if self.should_display(&files[i]) {
                let mut p: usize = 0;
                while p < out.len() && compare_files(field, &files[out[p]], &files[i]) <= 0
                    invariant
                        fs == files@,
                        i < fs.len(),
                        p <= out@.len(),
                        forall|k: int| 0 <= k < out@.len() ==> #[trigger] out@[k] < i,
                        forall|a: int| 0 <= a < p ==> precedes(field, fs, #[trigger] out@[a] as int, i as int),
                    decreases out.len() - p,
                {
                    proof {
                        lemma_key_order(sort_key(field, fs[out@[p as int] as int]), sort_key(field, fs[i as int]));
                    }
                    p = p + 1;
                }
                let ghost old_out = out@;
                if p < out.len() {
                    proof {
                        lemma_key_order(sort_key(field, fs[out@[p as int] as int]), sort_key(field, fs[i as int]));
                        assert(precedes(field, fs, i as int, out@[p as int] as int));
                    }
                }
                out.insert(p, i);
                assert(out@ == old_out.insert(p as int, i));
                assert forall|a: int, b: int| 0 <= a < b < out@.len() implies precedes(field, fs, #[trigger] out@[a] as int, #[trigger] out@[b] as int) by {
                    if b < p {
                        assert(out@[a] == old_out[a] && out@[b] == old_out[b]);
                    } else if b == p {
                        assert(out@[a] == old_out[a]);
                    } else if a == p {
                        assert(out@[b] == old_out[b - 1]);
                        if b - 1 > p {
                            assert(precedes(field, fs, old_out[p as int] as int, old_out[b - 1] as int));
                            lemma_precedes_transitive(field, fs, i as int, old_out[p as int] as int, old_out[b - 1] as int);
                        }
                    } else if a < p {
                        assert(out@[a] == old_out[a] && out@[b] == old_out[b - 1]);
                    } else {
                        assert(out@[a] == old_out[a - 1] && out@[b] == old_out[b - 1]);
                    }
                }
                assert forall|j: int| 0 <= j < i + 1 && visible(all, #[trigger] fs[j]) implies out@.contains(j as usize) by {
                    if j == i {
                        assert(out@[p as int] == i);
                    } else {
                        let k = choose|k: int| 0 <= k < old_out.len() && old_out[k] == j as usize;
                        if k < p {
                            assert(out@[k] == j as usize);
                        } else {
                            assert(out@[k + 1] == j as usize);
                        }
                    }
                }
                assert forall|k: int| 0 <= k < out@.len() implies #[trigger] out@[k] < i + 1 && visible(all, fs[out@[k] as int]) by {
                    if k < p {
                        assert(out@[k] == old_out[k]);
                    } else if k > p {
                        assert(out@[k] == old_out[k - 1]);
                    }
                }
            }
            i = i + 1;
        }
        if self.reverse {
            let mut r: Vec<usize> = Vec::new();
            let mut k: usize = out.len();
            while k > 0
                invariant
                    k <= out@.len(),
                    r@ == reversed(out@).subrange(0, out@.len() - k),
                decreases k,
            {
                k = k - 1;
                r.push(out[k]);
                assert(r@ =~= reversed(out@).subrange(0, out@.len() - k));
            }
            assert(reversed(r@) =~= out@);
            r
        } else {
            out
        }
    }

    /// The entries to list, in listing order (see `listing_order`).
    pub fn transform_files<'a>(&self, files: &'a Vec<File>) -> (r: Vec<&'a File>)
        ensures
            exists|order: Seq<usize>| {
                &&& is_listing(self.sort_field, self.show_invisibles, self.reverse, files@, order)
                &&& r@.len() == order.len()
                &&& forall|k: int| 0 <= k < order.len() ==> *r@[k] == files@[#[trigger] order[k] as int]
            },
    {
        let order = self.listing_order(files);
        let mut r: Vec<&'a File> = Vec::new();
        let mut k: usize = 0;
        while k < order.len()
            invariant
                is_listing(self.sort_field, self.show_invisibles, self.reverse, files@, order@),
                k <= order@.len(),
                r@.len() == k,
                forall|j: int| 0 <= j < k ==> *r@[j] == files@[#[trigger] order@[j] as int],
            decreases order.len() - k,
        {
            proof {
                let s = if self.reverse { reversed(order@) } else { order@ };
                if self.reverse {
                    assert(s[order@.len() - 1 - k] == order@[k as int]);
                } else {
                    assert(s[k as int] == order@[k as int]);
                }
            }
            r.push(&files[order[k]]);
            k = k + 1;
        }
        r
    }
}

} // verus!
