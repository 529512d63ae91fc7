//! Columns of a listing and how each one renders an entry.
use vstd::prelude::*;
use crate::file::{File, FileKind, Stat};
use crate::filetype::{bold, bold_underline, classify, normal, plain, style_of, Colour, HasType, Style};
use crate::text::{decimal, digit_char, digits, push_char, push_digits};

verus! {

/// A column of the listing.
#[derive(Clone, Copy, Debug, PartialEq, Eq, Structural)]
pub enum Column {
    Permissions,
    FileName,
    /// The size, in binary (1024-based) units when the flag is set, else in
    /// decimal (1000-based) units.
    FileSize(bool),
    User,
    Group,
    HardLinks,
    Inode,
    Blocks,
}

/// A piece of text together with the style it is shown in.
#[derive(Debug)]
pub struct Cell {
    pub text: String,
    pub style: Style,
}

/// The text and style of a cell.
pub open spec fn cell_view(c: Cell) -> (Seq<char>, Style) {
    (c.text@, c.style)
}

/// The views of a sequence of cells.
pub open spec fn cells_view(cs: Seq<Cell>) -> Seq<(Seq<char>, Style)> {
    cs.map_values(|c: Cell| cell_view(c))
}

/// `b` to the power `k`.
pub open spec fn power(b: nat, k: nat) -> nat
    decreases k,
{
    if k == 0 {
        1
    } else {
        b * power(b, (k - 1) as nat)
    }
}

/// 1024 for binary units, 1000 for decimal ones.
pub open spec fn unit_base(binary: bool) -> nat {
    if binary {
        1024
    } else {
        1000
    }
}

/// How many unit steps a size of `n` bytes climbs: the largest `k <= 6`
/// at or above `from` with `base^k <= n`.
pub open spec fn scale(n: nat, base: nat, from: nat) -> nat
    decreases 6 - from,
{
    if from < 6 && n / power(base, from) >= base {
        scale(n, base, from + 1)
    } else {
        from
    }
}

/// The name of the unit `base^k`.
pub open spec fn unit_name(k: nat, binary: bool) -> Seq<char> {
    if binary {
        if k == 0 {
            "B"@
        } else if k == 1 {
            "KiB"@
        } else if k == 2 {
            "MiB"@
        } else if k == 3 {
            "GiB"@
        } else if k == 4 {
            "TiB"@
        } else if k == 5 {
            "PiB"@
        } else {
            "EiB"@
        }
    } else {
        if k == 0 {
            "B"@
        } else if k == 1 {
            "KB"@
        } else if k == 2 {
            "MB"@
        } else if k == 3 {
            "GB"@
        } else if k == 4 {
            "TB"@
        } else if k == 5 {
            "PB"@
        } else {
            "EB"@
        }
    }
}

fn unit_name_exec(k: usize, binary: bool) -> (r: &'static str)
    ensures
        r@ == unit_name(k as nat, binary),
{
    if binary {
        if k == 0 {
            "B"
        } else if k == 1 {
            "KiB"
        } else if k == 2 {
            "MiB"
        } else if k == 3 {
            "GiB"
        } else if k == 4 {
            "TiB"
        } else if k == 5 {
            "PiB"
        } else {
            "EiB"
        }
    } else {
        if k == 0 {
            "B"
        } else if k == 1 {
            "KB"
        } else if k == 2 {
            "MB"
        } else if k == 3 {
            "GB"
        } else if k == 4 {
            "TB"
        } else if k == 5 {
            "PB"
        } else {
            "EB"
        }
    }
}

/// The size of `n` bytes in tenths of the unit `base^k`, rounded half up.
pub open spec fn shown_tenths(n: nat, base: nat, k: nat) -> nat {
    (n * 10 + power(base, k) / 2) / power(base, k)
}

/// A size of `n` bytes: below one unit step the plain count with `B`;
/// above it the size in the largest unit that fits, rounded half up to
/// one decimal place.
pub open spec fn size_text(n: nat, binary: bool) -> Seq<char> {
    let base = unit_base(binary);
    let k = scale(n, base, 0);
    if k == 0 {
        digits(n) + unit_name(0, binary)
    } else {
        let t = shown_tenths(n, base, k);
        digits(t / 10) + seq!['.', digit_char(t % 10)] + unit_name(k, binary)
    }
}

/// Formats a byte count in binary or decimal units.
pub fn format_size(size: u64, binary: bool) -> (r: String)
    ensures
        r@ == size_text(size as nat, binary),
{
    let base: u64 = if binary {
        1024
    } else {
        1000
    };
    let ghost b = unit_base(binary);
    let mut unit: u64 = 1;
    let mut k: usize = 0;
    while k < 6 && size / unit >= base
        invariant
            base as nat == b,
            b >= 1000,
            unit as nat == power(b, k as nat),
            unit >= 1,
            k <= 6,
            k > 0 ==> unit <= size,
            scale(size as nat, b, 0) == scale(size as nat, b, k as nat),
        decreases 6 - k,
    {
        assert(unit * base <= size) by (nonlinear_arith)
            requires
                size / unit >= base,
                unit >= 1,
        {
            assert((size / unit) * unit <= size);
        }
        assert(power(b, (k + 1) as nat) == b * power(b, k as nat));
        assert(unit * base == b * power(b, k as nat) && unit * base >= 1) by (nonlinear_arith)
            requires
                unit as nat == power(b, k as nat),
                base as nat == b,
                b >= 1000,
                unit >= 1,
        ;
        unit = unit * base;
        k = k + 1;
    }
    let mut s = String::new();
    if k == 0 {
        push_digits(&mut s, size as u128);
        s.append("B");
        assert(s@ =~= size_text(size as nat, binary));
    } else {
        let t: u128 = ((size as u128) * 10 + (unit as u128) / 2) / (unit as u128);
        push_digits(&mut s, t / 10);
        push_char(&mut s, '.');
        let d: u8 = (t % 10) as u8;
        push_char(&mut s, (d + 48) as char);
        s.append(unit_name_exec(k, binary));
        assert(s@ =~= size_text(size as nat, binary));
    }
    s
}

proof fn lemma_power_positive(b: nat, k: nat)
    requires
        b >= 1,
    ensures
        power(b, k) >= 1,
    decreases k,
{
    if k > 0 {
        lemma_power_positive(b, (k - 1) as nat);
        assert(b * power(b, (k - 1) as nat) >= 1) by (nonlinear_arith)
            requires
                b >= 1,
                power(b, (k - 1) as nat) >= 1,
        ;
    }
}

proof fn lemma_scale_bounds(n: nat, base: nat, from: nat)
    requires
        base >= 2,
        from <= 6,
        from == 0 || power(base, from) <= n,
    ensures
        scale(n, base, from) <= 6,
        scale(n, base, from) == 0 || power(base, scale(n, base, from)) <= n,
        scale(n, base, from) == 6 || n < power(base, scale(n, base, from) + 1),
    decreases 6 - from,
{
    lemma_power_positive(base, from);
    let p = power(base, from);
    if from < 6 && n / p >= base {
        assert(power(base, from + 1) == base * p);
        assert(base * p <= n) by (nonlinear_arith)
            requires
                n / p >= base,
                p >= 1,
        {
            assert((n / p) * p <= n);
        }
        lemma_scale_bounds(n, base, from + 1);
    } else if from < 6 {
        assert(power(base, from + 1) == base * p);
        assert(n < base * p) by (nonlinear_arith)
            requires
                n / p < base,
                p >= 1,
        {
            assert(n == (n / p) * p + n % p);
            assert(n % p < p);
        }
    }
}

/// A size of one unit step or more is shown in the largest unit `base^k`
/// (up to the sixth) that does not exceed it, and the number shown, in
/// tenths `t`, is within half a tenth of the exact quotient:
/// `|t * base^k - 10 * n| <= base^k / 2`.
pub proof fn lemma_size_rounding(n: nat, binary: bool)
    ensures
        ({
            let base = unit_base(binary);
            let k = scale(n, base, 0);
            let u = power(base, k);
            &&& k <= 6
            &&& (k == 0) == (n < base)
            &&& u <= n || k == 0
            &&& k == 6 || n < u * base
            &&& k > 0 ==> (n * 10 - u / 2 < shown_tenths(n, base, k) * u
                && shown_tenths(n, base, k) * u <= n * 10 + u / 2)
        }),
{
    let base = unit_base(binary);
    lemma_scale_bounds(n, base, 0);
    let k = scale(n, base, 0);
    let u = power(base, k);
    lemma_power_positive(base, k);
    assert(power(base, k + 1) == base * u);
    assert(power(base, 0) == 1);
    assert(n / 1 == n);
    if n >= base {
        assert(power(base, 1) == base * 1);
    }
    let x = n * 10 + u / 2;
    let t = shown_tenths(n, base, k);
    assert(t * u <= x && x < t * u + u) by (nonlinear_arith)
        requires
            t == x / u,
            u >= 1,
    {
        assert(x == (x / u) * u + x % u);
        assert(x % u < u);
    }
}

/// The character that opens the permissions column.
pub open spec fn type_char(kind: FileKind) -> char {
    match kind {
        FileKind::Regular => '.',
        FileKind::Directory => 'd',
        FileKind::NamedPipe => '|',
        FileKind::BlockSpecial => 's',
        FileKind::Symlink => 'l',
        FileKind::Unknown => '?',
    }
}

/// The style of that character.
pub open spec fn type_style(kind: FileKind) -> Style {
    match kind {
        FileKind::Regular => plain(),
        FileKind::Directory => normal(Colour::Blue),
        FileKind::NamedPipe => normal(Colour::Yellow),
        FileKind::BlockSpecial => normal(Colour::Purple),
        FileKind::Symlink => normal(Colour::Cyan),
        FileKind::Unknown => plain(),
    }
}

/// The mode bit of permission cell `i`: owner read, write, execute, then
/// the same for the group and for others.
pub open spec fn bit_mask(i: u32) -> u32 {
    256u32 >> i
}

/// The letter shown for permission cell `i` when its bit is set.
pub open spec fn bit_letter(i: u32) -> char {
    if i % 3 == 0 {
        'r'
    } else if i % 3 == 1 {
        'w'
    } else {
        'x'
    }
}

/// The style of permission cell `i` when its bit is set.
pub open spec fn bit_style(i: u32) -> Style {
    if i == 0 {
        bold(Colour::Yellow)
    } else if i == 1 {
        bold(Colour::Red)
    } else if i == 2 {
        bold_underline(Colour::Green)
    } else if i % 3 == 0 {
        normal(Colour::Yellow)
    } else if i % 3 == 1 {
        normal(Colour::Red)
    } else {
        normal(Colour::Green)
    }
}

/// The style of what stands for a missing value.
pub open spec fn dim() -> Style {
    bold(Colour::Black)
}

/// Permission cell `i`: its letter when the bit is set, else a dash.
pub open spec fn permission_cell(mode: u32, i: u32) -> (Seq<char>, Style) {
    if mode & bit_mask(i) != 0 {
        (seq![bit_letter(i)], bit_style(i))
    } else {
        (seq!['-'], dim())
    }
}

/// The permissions column: the type character, then the nine bit cells.
pub open spec fn permission_cells(stat: Stat) -> Seq<(Seq<char>, Style)> {
    seq![(seq![type_char(stat.kind)], type_style(stat.kind))] + Seq::new(
        9,
        |i: int| permission_cell(stat.mode, i as u32),
    )
}

fn char_cell(c: char, style: Style) -> (r: Cell)
    ensures
        cell_view(r) == (seq![c], style),
{
    let mut text = String::new();
    push_char(&mut text, c);
    assert(text@ =~= seq![c]);
    Cell { text, style }
}

fn type_cell(kind: FileKind) -> (r: Cell)
    ensures
        cell_view(r) == (seq![type_char(kind)], type_style(kind)),
{
    match kind {
        FileKind::Regular => char_cell('.', Style::plain()),
        FileKind::Directory => char_cell('d', Style::normal(Colour::Blue)),
        FileKind::NamedPipe => char_cell('|', Style::normal(Colour::Yellow)),
        FileKind::BlockSpecial => char_cell('s', Style::normal(Colour::Purple)),
        FileKind::Symlink => char_cell('l', Style::normal(Colour::Cyan)),
        FileKind::Unknown => char_cell('?', Style::plain()),
    }
}

fn bit_cell(mode: u32, i: u32) -> (r: Cell)
    requires
        i < 9,
    ensures
        cell_view(r) == permission_cell(mode, i),
{
    if mode & (256u32 >> i) != 0 {
        let letter = if i % 3 == 0 {
            'r'
        } else if i % 3 == 1 {
            'w'
        } else {
            'x'
        };
        let style = if i == 0 {
            Style::bold(Colour::Yellow)
        } else if i == 1 {
            Style::bold(Colour::Red)
        } else if i == 2 {
            Style::bold_underline(Colour::Green)
        } else if i % 3 == 0 {
            Style::normal(Colour::Yellow)
        } else if i % 3 == 1 {
            Style::normal(Colour::Red)
        } else {
            Style::normal(Colour::Green)
        };
        char_cell(letter, style)
    } else {
        char_cell('-', Style::bold(Colour::Black))
    }
}

/// The ten cells of the permissions column.
pub fn permission_row(stat: &Stat) -> (r: Vec<Cell>)
    ensures
        cells_view(r@) == permission_cells(*stat),
        r@.len() == 10,
{
    let mut r: Vec<Cell> = Vec::new();
    r.push(type_cell(stat.kind));
    let mut i: u32 = 0;
    while i < 9
        invariant
            i <= 9,
            r@.len() == i + 1,
            cells_view(r@) == permission_cells(*stat).subrange(0, i + 1),
        decreases 9 - i,
    {
        let c = bit_cell(stat.mode, i);
        r.push(c);
        assert(cells_view(r@) =~= permission_cells(*stat).subrange(0, i + 2));
        i = i + 1;
    }
    assert(permission_cells(*stat).subrange(0, 10) =~= permission_cells(*stat));
    r
}

/// A numeric attribute, or a name looked up for it when there is one.
pub open spec fn id_text(looked_up: Option<String>, id: nat) -> Seq<char> {
    match looked_up {
        Some(s) => s@,
        None => digits(id),
    }
}

/// What the size column shows for an entry.
pub open spec fn size_cell(stat: Stat, binary: bool) -> (Seq<char>, Style) {
    if stat.kind == FileKind::Directory {
        (seq!['-', '-', '-'], dim())
    } else {
        (size_text(stat.size as nat, binary), bold(Colour::Green))
    }
}

/// The cells that `column` shows for `f`, whose directory holds entries
/// named `peers`; `user` and `group` are the names that the owner ids were
/// resolved to, where that succeeded.
pub open spec fn rendered(
    f: File,
    column: Column,
    peers: Seq<String>,
    user: Option<String>,
    group: Option<String>,
) -> Seq<(Seq<char>, Style)> {
    match column {
        Column::Permissions => permission_cells(f.stat),
        Column::FileName => seq![(f.name@, style_of(classify(f, peers)))],
        Column::FileSize(binary) => seq![size_cell(f.stat, binary)],
        Column::User => seq![(id_text(user, f.stat.uid as nat), plain())],
        Column::Group => seq![(id_text(group, f.stat.gid as nat), plain())],
        Column::HardLinks => seq![(digits(f.stat.links as nat), plain())],
        Column::Inode => seq![(digits(f.stat.inode as nat), plain())],
        Column::Blocks => seq![(digits(f.stat.blocks as nat), plain())],
    }
}

fn number_cell(n: u64) -> (r: Cell)
    ensures
        cell_view(r) == (digits(n as nat), plain()),
{
    Cell { text: decimal(n as u128), style: Style::plain() }
}

fn id_cell(looked_up: Option<String>, id: u32) -> (r: Cell)
    ensures
        cell_view(r) == (id_text(looked_up, id as nat), plain()),
{
    match looked_up {
        Some(s) => Cell { text: s, style: Style::plain() },
        None => number_cell(id as u64),
    }
}

fn one(c: Cell) -> (r: Vec<Cell>)
    ensures
        cells_view(r@) == seq![cell_view(c)],
{
    let ghost v = cell_view(c);
    let mut r: Vec<Cell> = Vec::new();
    r.push(c);
    assert(cells_view(r@) =~= seq![v]);
    r
}

impl File {
    /// The size column of this entry: a dim dash placeholder for a
    /// directory, else the formatted size.
    pub fn file_size(&self, binary: bool) -> (r: Cell)
        ensures
            cell_view(r) == size_cell(self.stat, binary),
    {
        if self.stat.kind == FileKind::Directory {
            let mut text = String::new();
            text.append("---");
            proof {
                reveal_strlit("---");
            }
            assert(text@ =~= seq!['-', '-', '-']);
            Cell { text, style: Style::bold(Colour::Black) }
        } else {
            Cell { text: format_size(self.stat.size, binary), style: Style::bold(Colour::Green) }
        }
    }

    /// The cells that `column` shows for this entry.
    pub fn display(
        &self,
        column: &Column,
        peers: &Vec<String>,
        user: Option<String>,
        group: Option<String>,
    ) -> (r: Vec<Cell>)
        ensures
            cells_view(r@) == rendered(*self, *column, peers@, user, group),
    {
        match *column {
            Column::Permissions => permission_row(&self.stat),
            Column::FileName => {
                let t = self.get_type(peers);
                one(Cell { text: self.name.clone(), style: t.style() })
            },
            Column::FileSize(binary) => one(self.file_size(binary)),
            Column::User => one(id_cell(user, self.stat.uid)),
            Column::Group => one(id_cell(group, self.stat.gid)),
            Column::HardLinks => one(number_cell(self.stat.links)),
            Column::Inode => one(number_cell(self.stat.inode)),
            Column::Blocks => one(number_cell(self.stat.blocks)),
        }
    }
}

/// The permissions column has ten cells, the type character and nine
/// bit cells, whatever the kind of the entry.
pub proof fn lemma_permission_cells_len(stat: Stat)
    ensures
        permission_cells(stat).len() == 10,
        permission_cells(stat)[0].0 == seq![type_char(stat.kind)],
        forall|i: int| 1 <= i < 10 ==> (#[trigger] permission_cells(stat)[i]).0.len() == 1,
{
}

/// The title of a column in the header row.
pub open spec fn header_of(c: Column) -> Seq<char> {
    match c {
        Column::Permissions => "Permissions"@,
        Column::FileName => "Name"@,
        Column::FileSize(_) => "Size"@,
        Column::User => "User"@,
        Column::Group => "Group"@,
        Column::HardLinks => "Links"@,
        Column::Inode => "inode"@,
        Column::Blocks => "Blocks"@,
    }
}

impl Column {
    /// The title of this column in the header row.
    pub fn header(&self) -> (r: String)
        ensures
            r@ == header_of(*self),
    {
        match *self {
            Column::Permissions => String::from_str("Permissions"),
            Column::FileName => String::from_str("Name"),
            Column::FileSize(_) => String::from_str("Size"),
            Column::User => String::from_str("User"),
            Column::Group => String::from_str("Group"),
            Column::HardLinks => String::from_str("Links"),
            Column::Inode => String::from_str("inode"),
            Column::Blocks => String::from_str("Blocks"),
        }
    }
}

} // verus!
