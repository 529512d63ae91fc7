use exa::column::{format_size, permission_row, Cell, Column};
use exa::file::{File, FileKind, Stat};
use exa::filetype::{Colour, FileType, HasType, Style};
use exa::options::{Flags, Options, SortField};

fn stat(kind: FileKind, mode: u32, size: u64) -> Stat {
    Stat { kind, mode, size, uid: 1000, gid: 100, inode: 42, links: 1, blocks: 8 }
}

fn file(name: &str, kind: FileKind, mode: u32, size: u64) -> File {
    File::new(name.to_string(), format!("/tmp/{}", name), stat(kind, mode, size))
}

fn regular(name: &str) -> File {
    file(name, FileKind::Regular, 0o644, 0)
}

fn text(cells: &[Cell]) -> String {
    let mut s = String::new();
    for c in cells {
        s.push_str(&c.text);
    }
    s
}

fn options(field: SortField, all: bool, reverse: bool) -> Options {
    Options {
        show_invisibles: all,
        sort_field: field,
        reverse,
        dirs: vec![".".to_string()],
        columns: vec![Column::FileName],
        header: false,
    }
}

fn names(list: &[&File]) -> Vec<String> {
    list.iter().map(|f| f.name.clone()).collect()
}

fn flags() -> Flags {
    Flags {
        all: false,
        binary: false,
        group: false,
        header: false,
        inode: false,
        links: false,
        reverse: false,
        blocks: false,
        sort: None,
        free: vec![],
    }
}

#[test]
fn extension_after_first_dot() {
    assert_eq!(File::ext("a.tar.gz"), Some("tar.gz".to_string()));
    assert_eq!(File::ext("photo.png"), Some("png".to_string()));
    assert_eq!(File::ext("Makefile"), None);
    assert_eq!(File::ext("a."), None);
    assert_eq!(File::ext(""), None);
}

#[test]
fn dotfile_extension() {
    assert_eq!(File::ext(".bashrc"), None);
    assert_eq!(File::ext(".foo.tar.gz"), Some("foo.tar.gz".to_string()));
    assert_eq!(File::ext(".a.b"), Some("a.b".to_string()));
    assert_eq!(File::ext(".a."), Some("a.".to_string()));
}

#[test]
fn dotfiles_are_hidden() {
    assert!(regular(".bashrc").is_dotfile());
    assert!(!regular("bashrc").is_dotfile());
    assert!(!regular("").is_dotfile());
}

#[test]
fn regular_png_is_image() {
    let f = file("photo.png", FileKind::Regular, 0o644, 2048);
    assert_eq!(f.get_type(&vec![]), FileType::Image);
    let size = f.display(&Column::FileSize(true), &vec![], None, None);
    assert_eq!(text(&size), "2.0KiB");
    assert_eq!(size[0].style, Style::bold(Colour::Green));
    let perms = f.display(&Column::Permissions, &vec![], None, None);
    assert_eq!(text(&perms), ".rw-r--r--");
}

#[test]
fn directory_named_like_an_image() {
    let f = file("photo.png", FileKind::Directory, 0o644, 2048);
    assert_eq!(f.get_type(&vec![]), FileType::Directory);
    let size = f.display(&Column::FileSize(true), &vec![], None, None);
    assert_eq!(text(&size), "---");
    assert_eq!(size[0].style, Style::bold(Colour::Black));
    let perms = f.display(&Column::Permissions, &vec![], None, None);
    assert!(text(&perms).starts_with('d'));
    assert_eq!(text(&perms), "drw-r--r--");
}

#[test]
fn tilde_is_temp() {
    assert_eq!(regular("notes.txt~").get_type(&vec![]), FileType::Temp);
    assert_eq!(regular("notes.swp").get_type(&vec![]), FileType::Temp);
    assert_eq!(regular("photo.png~").get_type(&vec![]), FileType::Temp);
    assert_eq!(regular("a.tar.gz~").get_type(&vec![]), FileType::Temp);
    assert_eq!(regular("main.o~").get_type(&vec!["main.c".to_string()]), FileType::Temp);
    assert_eq!(regular(".vimrc.bak~").get_type(&vec![]), FileType::Temp);
}

#[test]
fn tilde_without_extension_is_normal() {
    assert_eq!(regular("notes~").get_type(&vec![]), FileType::Normal);
}

#[test]
fn object_file_with_source_is_temp() {
    let peers = vec!["main.c".to_string(), "main.o".to_string()];
    assert_eq!(regular("main.o").get_type(&peers), FileType::Temp);
}

#[test]
fn object_file_without_source_is_compiled() {
    let peers = vec!["main.o".to_string(), "other.c".to_string()];
    assert_eq!(regular("main.o").get_type(&peers), FileType::Compiled);
    assert_eq!(regular("Main.pyc").get_type(&vec![]), FileType::Compiled);
    assert_eq!(regular("Main.pyc").get_type(&vec!["Main.py".to_string()]), FileType::Temp);
}

#[test]
fn precedence_chain() {
    assert_eq!(file("src", FileKind::Directory, 0o755, 0).get_type(&vec![]), FileType::Directory);
    assert_eq!(file("link.png", FileKind::Symlink, 0o777, 0).get_type(&vec![]), FileType::Symlink);
    assert_eq!(file("fifo", FileKind::NamedPipe, 0o644, 0).get_type(&vec![]), FileType::Special);
    assert_eq!(file("sda", FileKind::BlockSpecial, 0o644, 0).get_type(&vec![]), FileType::Special);
    assert_eq!(file("what", FileKind::Unknown, 0o644, 0).get_type(&vec![]), FileType::Special);
    assert_eq!(file("run.png", FileKind::Regular, 0o755, 0).get_type(&vec![]), FileType::Executable);
    assert_eq!(file("run.png", FileKind::Regular, 0o601, 0).get_type(&vec![]), FileType::Executable);
    assert_eq!(regular("README.md").get_type(&vec![]), FileType::Immediate);
    assert_eq!(regular("Cargo.toml").get_type(&vec![]), FileType::Immediate);
    assert_eq!(regular("Makefile").get_type(&vec![]), FileType::Immediate);
    assert_eq!(regular("LICENSE").get_type(&vec![]), FileType::Normal);
    assert_eq!(regular("film.mkv").get_type(&vec![]), FileType::Video);
    assert_eq!(regular("song.mp3").get_type(&vec![]), FileType::Music);
    assert_eq!(regular("song.flac").get_type(&vec![]), FileType::Lossless);
    assert_eq!(regular("key.gpg").get_type(&vec![]), FileType::Crypto);
    assert_eq!(regular("paper.pdf").get_type(&vec![]), FileType::Document);
    assert_eq!(regular("figure.eps").get_type(&vec![]), FileType::Image);
    assert_eq!(regular("backup.zip").get_type(&vec![]), FileType::Compressed);
    assert_eq!(regular("a.tar.gz").get_type(&vec![]), FileType::Normal);
    assert_eq!(regular("lib.rs").get_type(&vec![]), FileType::Normal);
}

#[test]
fn classification_is_repeatable() {
    let peers = vec!["main.c".to_string()];
    let a = regular("main.o");
    let b = regular("main.o");
    assert_eq!(a.get_type(&peers), b.get_type(&peers));
    assert_eq!(a.get_type(&peers), a.get_type(&peers));
}

#[test]
fn style_table() {
    let all = [
        FileType::Normal, FileType::Directory, FileType::Executable, FileType::Immediate,
        FileType::Compiled, FileType::Symlink, FileType::Special, FileType::Image,
        FileType::Video, FileType::Music, FileType::Lossless, FileType::Compressed,
        FileType::Document, FileType::Temp, FileType::Crypto,
    ];
    for t in all.iter() {
        let s = t.style();
        if *t == FileType::Normal {
            assert_eq!(s, Style::plain());
        } else {
            assert!(s.foreground.is_some());
        }
    }
    assert_eq!(FileType::Directory.style(), Style::bold(Colour::Blue));
    assert_eq!(FileType::Temp.style(), Style::normal(Colour::Fixed(244)));
    assert_eq!(FileType::Immediate.style(), Style::bold_underline(Colour::Yellow));
}

#[test]
fn file_name_column_uses_category_style() {
    let f = regular("song.mp3");
    let cells = f.display(&Column::FileName, &vec![], None, None);
    assert_eq!(cells.len(), 1);
    assert_eq!(cells[0].text, "song.mp3");
    assert_eq!(cells[0].style, Style::normal(Colour::Fixed(92)));
}

#[test]
fn size_units() {
    assert_eq!(format_size(1024, true), "1.0KiB");
    assert_eq!(format_size(1024, false), "1.0KB");
    assert_eq!(format_size(1000, true), "1000B");
    assert_eq!(format_size(1000, false), "1.0KB");
    assert_eq!(format_size(999, false), "999B");
    assert_eq!(format_size(0, true), "0B");
    assert_eq!(format_size(1536, true), "1.5KiB");
    assert_eq!(format_size(1048576, true), "1.0MiB");
    assert_eq!(format_size(2500000, false), "2.5MB");
    assert_eq!(format_size(u64::MAX, true), "16.0EiB");
    assert_eq!(format_size(u64::MAX, false), "18.4EB");
}

#[test]
fn permissions_have_ten_cells() {
    let kinds = [
        (FileKind::Regular, '.'), (FileKind::Directory, 'd'), (FileKind::Symlink, 'l'),
        (FileKind::NamedPipe, '|'), (FileKind::BlockSpecial, 's'), (FileKind::Unknown, '?'),
    ];
    for (kind, c) in kinds.iter() {
        for mode in [0u32, 0o777, 0o640, 0o111].iter() {
            let row = permission_row(&stat(*kind, *mode, 0));
            assert_eq!(row.len(), 10);
            assert_eq!(row[0].text, c.to_string());
        }
    }
    let row = permission_row(&stat(FileKind::Regular, 0o751, 0));
    assert_eq!(text(&row), ".rwxr-x--x");
    assert_eq!(row[3].style, Style::bold_underline(Colour::Green));
    assert_eq!(row[6].style, Style::normal(Colour::Green));
    assert_eq!(row[5].style, Style::bold(Colour::Black));
}

#[test]
fn user_and_group_fall_back_to_ids() {
    let f = regular("a");
    let u = f.display(&Column::User, &vec![], Some("alice".to_string()), None);
    assert_eq!(u[0].text, "alice");
    let u = f.display(&Column::User, &vec![], None, None);
    assert_eq!(u[0].text, "1000");
    let g = f.display(&Column::Group, &vec![], None, None);
    assert_eq!(g[0].text, "100");
    assert_eq!(g[0].style, Style::plain());
    assert_eq!(f.display(&Column::Inode, &vec![], None, None)[0].text, "42");
    assert_eq!(f.display(&Column::HardLinks, &vec![], None, None)[0].text, "1");
    assert_eq!(f.display(&Column::Blocks, &vec![], None, None)[0].text, "8");
}

#[test]
fn sort_by_extension() {
    let files = vec![regular("b.TXT"), regular("a.txt"), regular("c")];
    let o = options(SortField::Extension, false, false);
    assert_eq!(names(&o.transform_files(&files)), vec!["c", "a.txt", "b.TXT"]);
}

#[test]
fn sort_by_name_and_size() {
    let files = vec![
        file("b", FileKind::Regular, 0o644, 10),
        file("a", FileKind::Regular, 0o644, 30),
        file("C", FileKind::Regular, 0o644, 10),
        file("d", FileKind::Regular, 0o644, 20),
    ];
    let o = options(SortField::Name, false, false);
    assert_eq!(names(&o.transform_files(&files)), vec!["C", "a", "b", "d"]);
    let o = options(SortField::Size, false, false);
    assert_eq!(names(&o.transform_files(&files)), vec!["b", "C", "d", "a"]);
}

#[test]
fn reverse_is_the_forward_listing_backwards() {
    let files = vec![
        file("b", FileKind::Regular, 0o644, 10),
        file("a", FileKind::Regular, 0o644, 30),
        file("C", FileKind::Regular, 0o644, 10),
        file(".h", FileKind::Regular, 0o644, 5),
    ];
    for field in [SortField::Name, SortField::Size, SortField::Extension].iter() {
        let mut forward = names(&options(*field, false, false).transform_files(&files));
        let backward = names(&options(*field, false, true).transform_files(&files));
        forward.reverse();
        assert_eq!(forward, backward);
    }
    let o = options(SortField::Size, false, true);
    assert_eq!(names(&o.transform_files(&files)), vec!["a", "C", "b"]);
}

#[test]
fn hidden_files_need_show_all() {
    let files = vec![regular(".bashrc"), regular("notes")];
    let o = options(SortField::Name, false, false);
    assert_eq!(names(&o.transform_files(&files)), vec!["notes"]);
    let o = options(SortField::Name, true, false);
    assert_eq!(names(&o.transform_files(&files)), vec![".bashrc", "notes"]);
}

#[test]
fn filtering_twice_is_filtering_once() {
    let files = vec![regular(".a"), regular("b"), regular(".c"), regular("d")];
    let o = options(SortField::Name, false, false);
    let once: Vec<&File> = files.iter().filter(|f| o.should_display(f)).collect();
    let twice: Vec<&File> = once.iter().cloned().filter(|f| o.should_display(f)).collect();
    assert_eq!(names(&once), names(&twice));
    assert_eq!(names(&once), vec!["b", "d"]);
}

#[test]
fn sort_words() {
    assert_eq!(SortField::from_word("name".to_string()), Some(SortField::Name));
    assert_eq!(SortField::from_word("size".to_string()), Some(SortField::Size));
    assert_eq!(SortField::from_word("ext".to_string()), Some(SortField::Extension));
    assert_eq!(SortField::from_word("date".to_string()), None);
}

#[test]
fn options_from_flags() {
    let o = Options::from_flags(flags()).unwrap();
    assert_eq!(o.sort_field, SortField::Name);
    assert_eq!(o.dirs, vec![".".to_string()]);
    assert_eq!(o.columns, vec![Column::Permissions, Column::FileSize(false), Column::User, Column::FileName]);
    let mut f = flags();
    f.inode = true;
    f.links = true;
    f.binary = true;
    f.blocks = true;
    f.group = true;
    f.all = true;
    f.sort = Some("size".to_string());
    f.free = vec!["src".to_string()];
    let o = Options::from_flags(f).unwrap();
    assert!(o.show_invisibles);
    assert_eq!(o.sort_field, SortField::Size);
    assert_eq!(o.dirs, vec!["src".to_string()]);
    assert_eq!(
        o.columns,
        vec![
            Column::Inode, Column::Permissions, Column::HardLinks, Column::FileSize(true),
            Column::Blocks, Column::User, Column::Group, Column::FileName,
        ]
    );
}

#[test]
fn invalid_sort_word_is_refused() {
    let mut f = flags();
    f.sort = Some("colour".to_string());
    assert_eq!(Options::from_flags(f).err(), Some("colour".to_string()));
}

#[test]
fn column_headers() {
    assert_eq!(Column::FileName.header(), "Name");
    assert_eq!(Column::FileSize(true).header(), "Size");
}
