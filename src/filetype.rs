//! Semantic file categories, the style table and the classifier.
use vstd::prelude::*;
use crate::file::{base_of, is_hidden, opt_view, File, FileKind};
use crate::text::{dot_position, ends_with, first_dot, has_prefix, lemma_first_dot_bounds, has_suffix, starts_with, str_eq};

verus! {

/// A terminal colour, as an abstract value.
#[derive(Clone, Copy, Debug, PartialEq, Eq, Structural)]
pub enum Colour {
    Black,
    Red,
    Green,
    Yellow,
    Blue,
    Purple,
    Cyan,
    White,
    /// One of the 256 indexed colours.
    Fixed(u8),
}

/// A display style: an optional foreground colour and emphasis flags.
#[derive(Clone, Copy, Debug, PartialEq, Eq, Structural)]
pub struct Style {
    pub foreground: Option<Colour>,
    pub is_bold: bool,
    pub is_underline: bool,
}

/// The unstyled style.
pub open spec fn plain() -> Style {
    Style { foreground: None, is_bold: false, is_underline: false }
}

/// A colour with no emphasis.
pub open spec fn normal(c: Colour) -> Style {
    Style { foreground: Some(c), is_bold: false, is_underline: false }
}

/// A colour in bold.
pub open spec fn bold(c: Colour) -> Style {
    Style { foreground: Some(c), is_bold: true, is_underline: false }
}

/// A colour in bold and underlined.
pub open spec fn bold_underline(c: Colour) -> Style {
    Style { foreground: Some(c), is_bold: true, is_underline: true }
}

impl Style {
    /// The unstyled style.
    pub fn plain() -> (r: Style)
        ensures
            r == plain(),
    {
        Style { foreground: None, is_bold: false, is_underline: false }
    }

    /// `c` with no emphasis.
    pub fn normal(c: Colour) -> (r: Style)
        ensures
            r == normal(c),
    {
        Style { foreground: Some(c), is_bold: false, is_underline: false }
    }

    /// `c` in bold.
    pub fn bold(c: Colour) -> (r: Style)
        ensures
            r == bold(c),
    {
        Style { foreground: Some(c), is_bold: true, is_underline: false }
    }

    /// `c` in bold and underlined.
    pub fn bold_underline(c: Colour) -> (r: Style)
        ensures
            r == bold_underline(c),
    {
        Style { foreground: Some(c), is_bold: true, is_underline: true }
    }
}

/// The grey used for temporary files.
pub const GREY: u8 = 244;

/// The semantic category of a directory entry.
#[derive(Clone, Copy, Debug, PartialEq, Eq, Structural)]
pub enum FileType {
    Normal,
    Directory,
    Executable,
    Immediate,
    Compiled,
    Symlink,
    Special,
    Image,
    Video,
    Music,
    Lossless,
    Compressed,
    Document,
    Temp,
    Crypto,
}

/// The style table: one entry for each category.
pub open spec fn style_of(t: FileType) -> Style {
    match t {
        FileType::Normal => plain(),
        FileType::Directory => bold(Colour::Blue),
        FileType::Symlink => normal(Colour::Cyan),
        FileType::Special => normal(Colour::Yellow),
        FileType::Executable => bold(Colour::Green),
        FileType::Image => normal(Colour::Fixed(133)),
        FileType::Video => normal(Colour::Fixed(135)),
        FileType::Music => normal(Colour::Fixed(92)),
        FileType::Lossless => normal(Colour::Fixed(93)),
        FileType::Crypto => normal(Colour::Fixed(109)),
        FileType::Document => normal(Colour::Fixed(105)),
        FileType::Compressed => normal(Colour::Red),
        FileType::Temp => normal(Colour::Fixed(GREY)),
        FileType::Immediate => bold_underline(Colour::Yellow),
        FileType::Compiled => normal(Colour::Fixed(137)),
    }
}

impl FileType {
    /// The style that entries of this category are shown in.
    pub fn style(&self) -> (r: Style)
        ensures
            r == style_of(*self),
    {
        match *self {
            FileType::Normal => Style::plain(),
            FileType::Directory => Style::bold(Colour::Blue),
            FileType::Symlink => Style::normal(Colour::Cyan),
            FileType::Special => Style::normal(Colour::Yellow),
            FileType::Executable => Style::bold(Colour::Green),
            FileType::Image => Style::normal(Colour::Fixed(133)),
            FileType::Video => Style::normal(Colour::Fixed(135)),
            FileType::Music => Style::normal(Colour::Fixed(92)),
            FileType::Lossless => Style::normal(Colour::Fixed(93)),
            FileType::Crypto => Style::normal(Colour::Fixed(109)),
            FileType::Document => Style::normal(Colour::Fixed(105)),
            FileType::Compressed => Style::normal(Colour::Red),
            FileType::Temp => Style::normal(Colour::Fixed(GREY)),
            FileType::Immediate => Style::bold_underline(Colour::Yellow),
            FileType::Compiled => Style::normal(Colour::Fixed(137)),
        }
    }
}

/// Every category but `Normal` has a colour of its own, and `Normal` is
/// shown plain: the table has an entry for each category.
pub proof fn lemma_style_table_total(t: FileType)
    ensures
        style_of(t) == plain() <==> t == FileType::Normal,
        t != FileType::Normal ==> style_of(t).foreground is Some,
{
}

/// Extensions of image files.
pub open spec fn image_name(e: Seq<char>) -> bool {
    e == "png"@
    || e == "jpeg"@
    || e == "jpg"@
    || e == "gif"@
    || e == "bmp"@
    || e == "tiff"@
    || e == "tif"@
    || e == "ppm"@
    || e == "pgm"@
    || e == "pbm"@
    || e == "pnm"@
    || e == "webp"@
    || e == "raw"@
    || e == "arw"@
    || e == "svg"@
    || e == "stl"@
    || e == "eps"@
    || e == "dvi"@
    || e == "ps"@
    || e == "cbr"@
    || e == "cbz"@
    || e == "xpm"@
    || e == "ico"@
}

fn is_image_name(e: &str) -> (r: bool)
    ensures
        r == image_name(e@),
{
    str_eq(e, "png")
    || str_eq(e, "jpeg")
    || str_eq(e, "jpg")
    || str_eq(e, "gif")
    || str_eq(e, "bmp")
    || str_eq(e, "tiff")
    || str_eq(e, "tif")
    || str_eq(e, "ppm")
    || str_eq(e, "pgm")
    || str_eq(e, "pbm")
    || str_eq(e, "pnm")
    || str_eq(e, "webp")
    || str_eq(e, "raw")
    || str_eq(e, "arw")
    || str_eq(e, "svg")
    || str_eq(e, "stl")
    || str_eq(e, "eps")
    || str_eq(e, "dvi")
    || str_eq(e, "ps")
    || str_eq(e, "cbr")
    || str_eq(e, "cbz")
    || str_eq(e, "xpm")
    || str_eq(e, "ico")
}

/// Extensions of video files.
pub open spec fn video_name(e: Seq<char>) -> bool {
    e == "avi"@
    || e == "flv"@
    || e == "m2v"@
    || e == "mkv"@
    || e == "mov"@
    || e == "mp4"@
    || e == "mpeg"@
    || e == "mpg"@
    || e == "ogm"@
    || e == "ogv"@
    || e == "vob"@
    || e == "wmv"@
}

fn is_video_name(e: &str) -> (r: bool)
    ensures
        r == video_name(e@),
{
    str_eq(e, "avi")
    || str_eq(e, "flv")
    || str_eq(e, "m2v")
    || str_eq(e, "mkv")
    || str_eq(e, "mov")
    || str_eq(e, "mp4")
    || str_eq(e, "mpeg")
    || str_eq(e, "mpg")
    || str_eq(e, "ogm")
    || str_eq(e, "ogv")
    || str_eq(e, "vob")
    || str_eq(e, "wmv")
}

/// Extensions of lossy audio files.
pub open spec fn music_name(e: Seq<char>) -> bool {
    e == "aac"@
    || e == "m4a"@
    || e == "mp3"@
    || e == "ogg"@
}

fn is_music_name(e: &str) -> (r: bool)
    ensures
        r == music_name(e@),
{
    str_eq(e, "aac")
    || str_eq(e, "m4a")
    || str_eq(e, "mp3")
    || str_eq(e, "ogg")
}

/// Extensions of lossless audio files.
pub open spec fn lossless_name(e: Seq<char>) -> bool {
    e == "alac"@
    || e == "ape"@
    || e == "flac"@
    || e == "wav"@
}

fn is_lossless_name(e: &str) -> (r: bool)
    ensures
        r == lossless_name(e@),
{
    str_eq(e, "alac")
    || str_eq(e, "ape")
    || str_eq(e, "flac")
    || str_eq(e, "wav")
}

/// Extensions of keys and signatures.
pub open spec fn crypto_name(e: Seq<char>) -> bool {
    e == "asc"@
    || e == "gpg"@
    || e == "sig"@
    || e == "signature"@
    || e == "pgp"@
}

fn is_crypto_name(e: &str) -> (r: bool)
    ensures
        r == crypto_name(e@),
{
    str_eq(e, "asc")
    || str_eq(e, "gpg")
    || str_eq(e, "sig")
    || str_eq(e, "signature")
    || str_eq(e, "pgp")
}

/// Extensions of documents.
pub open spec fn document_name(e: Seq<char>) -> bool {
    e == "djvu"@
    || e == "doc"@
    || e == "docx"@
    || e == "eml"@
    || e == "eps"@
    || e == "odp"@
    || e == "ods"@
    || e == "odt"@
    || e == "pdf"@
    || e == "ppt"@
    || e == "pptx"@
    || e == "xls"@
    || e == "xlsx"@
}

fn is_document_name(e: &str) -> (r: bool)
    ensures
        r == document_name(e@),
{
    str_eq(e, "djvu")
    || str_eq(e, "doc")
    || str_eq(e, "docx")
    || str_eq(e, "eml")
    || str_eq(e, "eps")
    || str_eq(e, "odp")
    || str_eq(e, "ods")
    || str_eq(e, "odt")
    || str_eq(e, "pdf")
    || str_eq(e, "ppt")
    || str_eq(e, "pptx")
    || str_eq(e, "xls")
    || str_eq(e, "xlsx")
}

/// Extensions of archives and compressed files.
pub open spec fn compressed_name(e: Seq<char>) -> bool {
    e == "zip"@
    || e == "tar"@
    || e == "Z"@
    || e == "gz"@
    || e == "bz2"@
    || e == "a"@
    || e == "ar"@
    || e == "7z"@
    || e == "iso"@
    || e == "dmg"@
    || e == "tc"@
    || e == "rar"@
    || e == "par"@
}

fn is_compressed_name(e: &str) -> (r: bool)
    ensures
        r == compressed_name(e@),
{
    str_eq(e, "zip")
    || str_eq(e, "tar")
    || str_eq(e, "Z")
    || str_eq(e, "gz")
    || str_eq(e, "bz2")
    || str_eq(e, "a")
    || str_eq(e, "ar")
    || str_eq(e, "7z")
    || str_eq(e, "iso")
    || str_eq(e, "dmg")
    || str_eq(e, "tc")
    || str_eq(e, "rar")
    || str_eq(e, "par")
}

/// Extensions of temporary and backup files.
pub open spec fn temp_name(e: Seq<char>) -> bool {
    e == "tmp"@
    || e == "swp"@
    || e == "swo"@
    || e == "swn"@
    || e == "bak"@
}

fn is_temp_name(e: &str) -> (r: bool)
    ensures
        r == temp_name(e@),
{
    str_eq(e, "tmp")
    || str_eq(e, "swp")
    || str_eq(e, "swo")
    || str_eq(e, "swn")
    || str_eq(e, "bak")
}

/// File names of build descriptors.
pub open spec fn build_name(e: Seq<char>) -> bool {
    e == "Makefile"@
    || e == "Cargo.toml"@
    || e == "SConstruct"@
    || e == "CMakeLists.txt"@
    || e == "build.gradle"@
    || e == "Rakefile"@
    || e == "Gruntfile.js"@
    || e == "Gruntfile.coffee"@
}

fn is_build_name(e: &str) -> (r: bool)
    ensures
        r == build_name(e@),
{
    str_eq(e, "Makefile")
    || str_eq(e, "Cargo.toml")
    || str_eq(e, "SConstruct")
    || str_eq(e, "CMakeLists.txt")
    || str_eq(e, "build.gradle")
    || str_eq(e, "Rakefile")
    || str_eq(e, "Gruntfile.js")
    || str_eq(e, "Gruntfile.coffee")
}

/// The extension of the source file that a compiled artifact is built from:
/// `class` from `java`, `elc` from `el`, `hi` from `hs`, `o` from `c`, `pyc`
/// from `py`. Other extensions have no source.
pub open spec fn source_ext(e: Seq<char>) -> Option<Seq<char>> {
    if e == "class"@ {
        Some("java"@)
    } else if e == "elc"@ {
        Some("el"@)
    } else if e == "hi"@ {
        Some("hs"@)
    } else if e == "o"@ {
        Some("c"@)
    } else if e == "pyc"@ {
        Some("py"@)
    } else {
        None
    }
}

fn source_ext_exec(e: &str) -> (r: Option<&'static str>)
    ensures
        opt_str_view(r) == source_ext(e@),
{
    if str_eq(e, "class") {
        Some("java")
    } else if str_eq(e, "elc") {
        Some("el")
    } else if str_eq(e, "hi") {
        Some("hs")
    } else if str_eq(e, "o") {
        Some("c")
    } else if str_eq(e, "pyc") {
        Some("py")
    } else {
        None
    }
}

/// The view of an optional string slice.
pub open spec fn opt_str_view(o: Option<&str>) -> Option<Seq<char>> {
    match o {
        Some(s) => Some(s@),
        None => None,
    }
}

/// Some peer of the entry is named `c`.
pub open spec fn peer_present(peers: Seq<String>, c: Seq<char>) -> bool {
    exists|k: int| 0 <= k < peers.len() && #[trigger] peers[k]@ == c
}

/// The category of an entry with name `name` and extension `e`, once its
/// kind and permissions have not decided it.
pub open spec fn classify_ext(name: Seq<char>, e: Seq<char>, peers: Seq<String>) -> FileType {
    if image_name(e) {
        FileType::Image
    } else if video_name(e) {
        FileType::Video
    } else if music_name(e) {
        FileType::Music
    } else if lossless_name(e) {
        FileType::Lossless
    } else if crypto_name(e) {
        FileType::Crypto
    } else if document_name(e) {
        FileType::Document
    } else if compressed_name(e) {
        FileType::Compressed
    } else if has_suffix(name, "~"@) || temp_name(e) {
        FileType::Temp
    } else {
        match source_ext(e) {
            None => FileType::Normal,
            Some(s) => if peer_present(peers, base_of(name) + "."@ + s) {
                FileType::Temp
            } else {
                FileType::Compiled
            },
        }
    }
}

/// Any of the owner, group or other execute bits is set.
pub open spec fn is_executable(mode: u32) -> bool {
    mode & 0o111 != 0
}

/// The category of an entry whose directory holds entries named `peers`:
/// the first rule that matches wins.
pub open spec fn classify(f: File, peers: Seq<String>) -> FileType {
    let name = f.name@;
    match f.stat.kind {
        FileKind::Directory => FileType::Directory,
        FileKind::Symlink => FileType::Symlink,
        FileKind::BlockSpecial | FileKind::NamedPipe | FileKind::Unknown => FileType::Special,
        FileKind::Regular => if is_executable(f.stat.mode) {
            FileType::Executable
        } else if has_prefix(name, "README"@) || build_name(name) {
            FileType::Immediate
        } else {
            match opt_view(f.ext) {
                None => FileType::Normal,
                Some(e) => classify_ext(name, e, peers),
            }
        },
    }
}

fn peer_present_exec(peers: &Vec<String>, c: &str) -> (r: bool)
    ensures
        r == peer_present(peers@, c@),
{
    let mut k: usize = 0;
    while k < peers.len()
        invariant
            k <= peers@.len(),
            forall|j: int| 0 <= j < k ==> peers@[j]@ != c@,
        decreases peers.len() - k,
    {
        if str_eq(peers[k].as_str(), c) {
            return true;
        }
        k = k + 1;
    }
    false
}

fn classify_ext_exec(name: &str, e: &str, peers: &Vec<String>) -> (r: FileType)
    ensures
        r == classify_ext(name@, e@, peers@),
{
    if is_image_name(e) {
        FileType::Image
    } else if is_video_name(e) {
        FileType::Video
    } else if is_music_name(e) {
        FileType::Music
    } else if is_lossless_name(e) {
        FileType::Lossless
    } else if is_crypto_name(e) {
        FileType::Crypto
    } else if is_document_name(e) {
        FileType::Document
    } else if is_compressed_name(e) {
        FileType::Compressed
    } else if ends_with(name, "~") || is_temp_name(e) {
        FileType::Temp
    } else {
        match source_ext_exec(e) {
            None => FileType::Normal,
            Some(s) => {
                let d = dot_position(name, 0);
                let mut candidate = String::from_str(name.substring_char(0, d));
                candidate.append(".");
                candidate.append(s);
                if peer_present_exec(peers, candidate.as_str()) {
                    FileType::Temp
                } else {
                    FileType::Compiled
                }
            },
        }
    }
}

/// Things that can be given a category.
pub trait HasType {
    /// The category, given the names of the entries beside it.
    spec fn type_of(&self, peers: Seq<String>) -> FileType;

    fn get_type(&self, peers: &Vec<String>) -> (r: FileType)
        ensures
            r == self.type_of(peers@),
    ;
}

impl HasType for File {
    open spec fn type_of(&self, peers: Seq<String>) -> FileType {
        classify(*self, peers)
    }

    fn get_type(&self, peers: &Vec<String>) -> (r: FileType) {
        let name = self.name.as_str();
        match self.stat.kind {
            FileKind::Directory => FileType::Directory,
            FileKind::Symlink => FileType::Symlink,
            FileKind::BlockSpecial | FileKind::NamedPipe | FileKind::Unknown => FileType::Special,
            FileKind::Regular => if self.stat.mode & 0o111 != 0 {
                FileType::Executable
            } else if starts_with(name, "README") || is_build_name(name) {
                FileType::Immediate
            } else {
                match &self.ext {
                    None => FileType::Normal,
                    Some(e) => classify_ext_exec(name, e.as_str(), peers),
                }
            },
        }
    }
}

/// The category depends on nothing but the entry's name, extension, kind
/// and mode and on the names of its peers: equal inputs give equal
/// categories, whatever else the records hold.
pub proof fn lemma_classify_deterministic(f1: File, f2: File, p1: Seq<String>, p2: Seq<String>)
    requires
        f1.name@ == f2.name@,
        opt_view(f1.ext) == opt_view(f2.ext),
        f1.stat.kind == f2.stat.kind,
        f1.stat.mode == f2.stat.mode,
        p1.len() == p2.len(),
        forall|k: int| 0 <= k < p1.len() ==> p1[k]@ == p2[k]@,
    ensures
        classify(f1, p1) == classify(f2, p2),
{
    assert forall|c: Seq<char>| peer_present(p1, c) <==> peer_present(p2, c) by {
        if peer_present(p1, c) {
            let k = choose|k: int| 0 <= k < p1.len() && #[trigger] p1[k]@ == c;
            assert(p2[k]@ == c);
        }
        if peer_present(p2, c) {
            let k = choose|k: int| 0 <= k < p2.len() && #[trigger] p2[k]@ == c;
            assert(p1[k]@ == c);
        }
    }
}

/// No extension that one of the extension tables lists ends with `~`.
proof fn lemma_tables_have_no_tilde(e: Seq<char>)
    requires
        e.len() > 0,
        e.last() == '~',
    ensures
        !image_name(e),
        !video_name(e),
        !music_name(e),
        !lossless_name(e),
        !crypto_name(e),
        !document_name(e),
        !compressed_name(e),
{
    reveal_strlit("png");
    reveal_strlit("jpeg");
    reveal_strlit("jpg");
    reveal_strlit("gif");
    reveal_strlit("bmp");
    reveal_strlit("tiff");
    reveal_strlit("tif");
    reveal_strlit("ppm");
    reveal_strlit("pgm");
    reveal_strlit("pbm");
    reveal_strlit("pnm");
    reveal_strlit("webp");
    reveal_strlit("raw");
    reveal_strlit("arw");
    reveal_strlit("svg");
    reveal_strlit("stl");
    reveal_strlit("eps");
    reveal_strlit("dvi");
    reveal_strlit("ps");
    reveal_strlit("cbr");
    reveal_strlit("cbz");
    reveal_strlit("xpm");
    reveal_strlit("ico");
    reveal_strlit("avi");
    reveal_strlit("flv");
    reveal_strlit("m2v");
    reveal_strlit("mkv");
    reveal_strlit("mov");
    reveal_strlit("mp4");
    reveal_strlit("mpeg");
    reveal_strlit("mpg");
    reveal_strlit("ogm");
    reveal_strlit("ogv");
    reveal_strlit("vob");
    reveal_strlit("wmv");
    reveal_strlit("aac");
    reveal_strlit("m4a");
    reveal_strlit("mp3");
    reveal_strlit("ogg");
    reveal_strlit("alac");
    reveal_strlit("ape");
    reveal_strlit("flac");
    reveal_strlit("wav");
    reveal_strlit("asc");
    reveal_strlit("gpg");
    reveal_strlit("sig");
    reveal_strlit("signature");
    reveal_strlit("pgp");
    reveal_strlit("djvu");
    reveal_strlit("doc");
    reveal_strlit("docx");
    reveal_strlit("eml");
    reveal_strlit("odp");
    reveal_strlit("ods");
    reveal_strlit("odt");
    reveal_strlit("pdf");
    reveal_strlit("ppt");
    reveal_strlit("pptx");
    reveal_strlit("xls");
    reveal_strlit("xlsx");
    reveal_strlit("zip");
    reveal_strlit("tar");
    reveal_strlit("Z");
    reveal_strlit("gz");
    reveal_strlit("bz2");
    reveal_strlit("a");
    reveal_strlit("ar");
    reveal_strlit("7z");
    reveal_strlit("iso");
    reveal_strlit("dmg");
    reveal_strlit("tc");
    reveal_strlit("rar");
    reveal_strlit("par");
}

/// A regular file whose name ends with `~` and has an extension, that no
/// execute bit, `README` prefix or build-descriptor name has claimed, is
/// temporary: its extension ends with `~` too, so no extension table
/// matches before the trailing-tilde rule.
pub proof fn lemma_tilde_is_temp(f: File, peers: Seq<String>)
    requires
        f.has_derived_ext(),
        f.stat.kind == FileKind::Regular,
        !is_executable(f.stat.mode),
        !has_prefix(f.name@, "README"@),
        !build_name(f.name@),
        f.ext is Some,
        has_suffix(f.name@, "~"@),
    ensures
        classify(f, peers) == FileType::Temp,
{
    reveal_strlit("~");
    let name = f.name@;
    let e = opt_view(f.ext)->Some_0;
    assert(name.last() == '~') by {
        assert(name.subrange(name.len() - 1, name.len() as int)[0] == "~"@[0]);
    }
    let k: int = if is_hidden(name) {
        1
    } else {
        first_dot(name, 0) + 1
    };
    if is_hidden(name) {
        assert(first_dot(name, 1) < name.len());
        assert(name.len() > 1);
    } else {
        lemma_first_dot_bounds(name, 0);
    }
    assert(0 < k < name.len());
    assert(e == name.subrange(k, name.len() as int));
    assert(e[e.len() - 1] == name[name.len() - 1]);
    lemma_tables_have_no_tilde(e);
}

} // verus!
