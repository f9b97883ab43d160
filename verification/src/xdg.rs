//! XDG desktop file and icon handling.
//!
//! The directory walk itself reads the file system and stays with the caller;
//! this module decides what each directory and file name means and keeps the
//! icon index and the `app_id` cache.

use vstd::prelude::*;
use crate::image_type::{ImageType, image_order};
use crate::table::StrTable;
use crate::text::{
    decimal, find, find_chars, lemma_decimal_len, lemma_find_after_digits, lemma_parse_decimal, lines,
    lines_of, parse_unsigned, parse_unsigned_chars, starts_with_at,
    string_of, to_chars,
};
use core::cmp::Ordering;

verus! {

broadcast use vstd::string::group_string_axioms;

/// Where an icon was found: its theme (empty for pixmaps), its image type,
/// and its path.
#[derive(Debug, PartialEq, Eq)]
pub struct IconRecord {
    pub theme: String,
    pub image_type: ImageType,
    pub path: Vec<u8>,
}

/// The value of an [`IconRecord`].
pub struct IconRecordView {
    pub theme: Seq<char>,
    pub image_type: ImageType,
    pub path: Seq<u8>,
}

impl DeepView for IconRecord {
    type V = IconRecordView;

    open spec fn deep_view(&self) -> IconRecordView {
        IconRecordView { theme: self.theme@, image_type: self.image_type, path: self.path@ }
    }
}

/// The position of the last `c` in `s`, or -1.
pub open spec fn last_index_of(s: Seq<char>, c: char) -> int
    decreases s.len(),
{
    if s.len() == 0 {
        -1
    } else if s.last() == c {
        s.len() - 1
    } else {
        last_index_of(s.drop_last(), c)
    }
}

proof fn lemma_last_index_of(s: Seq<char>, c: char)
    ensures
        -1 <= last_index_of(s, c) < s.len(),
        last_index_of(s, c) >= 0 ==> s[last_index_of(s, c)] == c,
    decreases s.len(),
{
    if s.len() > 0 && s.last() != c {
        lemma_last_index_of(s.drop_last(), c);
    }
}

/// The position of the last `c` in `v`.
pub fn rfind_char(v: &Vec<char>, c: char) -> (r: Option<usize>)
    ensures
        r matches Some(i) ==> last_index_of(v@, c) == i,
        r is None ==> last_index_of(v@, c) == -1,
{
    let mut i: usize = v.len();
    assert(v@.take(i as int) =~= v@);
    while i > 0
        invariant
            i <= v@.len(),
            last_index_of(v@, c) == last_index_of(v@.take(i as int), c),
        decreases i,
    {
        assert(v@.take(i as int).drop_last() =~= v@.take(i - 1));
        if v[i - 1] == c {
            return Some(i - 1);
        }
        i -= 1;
    }
    None
}

/// Whether two character sequences are equal.
pub fn chars_equal(a: &Vec<char>, b: &Vec<char>) -> (r: bool)
    ensures
        r == (a@ == b@),
{
    if a.len() != b.len() {
        return false;
    }
    let r = starts_with_at(a, 0, b);
    assert(a@.subrange(0, b@.len() as int) =~= a@);
    r
}

/// The image type that an icon theme subdirectory's name stands for:
/// `scalable`, `symbolic`, or a square size such as `48x48`.
pub open spec fn dir_image_type(name: Seq<char>) -> Option<ImageType> {
    if name == "scalable"@ {
        Some(ImageType::Scalable)
    } else if name == "symbolic"@ {
        Some(ImageType::Symbolic)
    } else {
        match find(name, seq!['x']) {
            None => None,
            Some(i) => match (
                parse_unsigned(name.take(i), u32::MAX as int),
                parse_unsigned(name.skip(i + 1), u32::MAX as int),
            ) {
                (Some(width), Some(height)) => if width == height {
                    Some(ImageType::SizedBitmap(width as u32))
                } else {
                    None
                },
                _ => None,
            },
        }
    }
}

/// Handle standardized icon theme directory layout.
pub fn classify_dir_name(dir_name: &str) -> (r: Option<ImageType>)
    ensures
        r == dir_image_type(dir_name@),
{
    let name = to_chars(dir_name);
    let scalable = to_chars("scalable");
    let symbolic = to_chars("symbolic");
    if chars_equal(&name, &scalable) {
        return Some(ImageType::Scalable);
    }
    if chars_equal(&name, &symbolic) {
        return Some(ImageType::Symbolic);
    }
    let x = vec!['x'];
    assert(x@ =~= seq!['x']);
    match find_chars(&name, &x) {
        None => None,
        Some(i) => {
            proof {
                crate::text::lemma_find_in_bounds(name@, x@, 0);
            }
            assert(name@.subrange(0, i as int) =~= name@.take(i as int));
            assert(name@.subrange(i + 1, name@.len() as int) =~= name@.skip(i + 1));
            let width = parse_unsigned_chars(&name, 0, i, 0xffffffffu64);
            let height = parse_unsigned_chars(&name, i + 1, name.len(), 0xffffffffu64);
            match (width, height) {
                (Some(width), Some(height)) => {
                    if width == height {
                        Some(ImageType::SizedBitmap(width as u32))
                    } else {
                        None
                    }
                },
                _ => None,
            }
        },
    }
}

/// The icon name of a file in a theme directory: the file name before its
/// last `.`, which must not be empty; for symbolic icons it must end in
/// `-symbolic`, which is dropped.
pub open spec fn themed_icon_name(file_name: Seq<char>, image_type: ImageType) -> Option<
    Seq<char>,
> {
    let dot = last_index_of(file_name, '.');
    if dot < 0 {
        None
    } else {
        let name = file_name.take(dot);
        let suffix = "-symbolic"@;
        if name.len() == 0 {
            None
        } else if image_type == ImageType::Symbolic {
            if name.len() >= suffix.len() && name.skip(name.len() - suffix.len()) == suffix {
                Some(name.take(name.len() - suffix.len()))
            } else {
                None
            }
        } else {
            Some(name)
        }
    }
}

/// Strip extension (and the `-symbolic` suffix of symbolic icons).
pub fn icon_name_of_file(file_name: &str, image_type: ImageType) -> (r: Option<String>)
    ensures
        r matches Some(name) ==> themed_icon_name(file_name@, image_type) == Some(name@),
        r is None ==> themed_icon_name(file_name@, image_type) is None,
{
    let chars = to_chars(file_name);
    let dot = match rfind_char(&chars, '.') {
        Some(dot) => dot,
        None => return None,
    };
    proof {
        lemma_last_index_of(chars@, '.');
    }
    if dot == 0 {
        return None;
    }
    let ghost name = chars@.take(dot as int);
    if image_type == ImageType::Symbolic {
        let suffix = to_chars("-symbolic");
        if dot >= suffix.len() && starts_with_at(&chars, dot - suffix.len(), &suffix) {
            assert(chars@.subrange(dot - suffix@.len(), dot as int) =~= name.skip(
                name.len() - suffix@.len(),
            ));
            let r = string_of(&chars, 0, dot - suffix.len());
            assert(r@ =~= name.take(name.len() - suffix@.len()));
            Some(r)
        } else {
            proof {
                if name.len() >= suffix@.len() {
                    assert(chars@.subrange(dot - suffix@.len(), dot as int) =~= name.skip(
                        name.len() - suffix@.len(),
                    ));
                }
            }
            None
        }
    } else {
        let r = string_of(&chars, 0, dot);
        assert(r@ =~= name);
        Some(r)
    }
}

/// The icon name and image type of a file in the pixmaps directory: SVG files
/// are scalable, PNG files bitmaps of unknown size.
pub open spec fn pixmap_icon(file_name: Seq<char>) -> Option<(Seq<char>, ImageType)> {
    let dot = last_index_of(file_name, '.');
    if dot < 0 {
        None
    } else {
        let name = file_name.take(dot);
        let ext = file_name.skip(dot + 1);
        if ext == "svg"@ {
            Some((name, ImageType::Scalable))
        } else if ext == "png"@ {
            Some((name, ImageType::Bitmap))
        } else {
            None
        }
    }
}

/// The last `.` of a name, a dot and an extension without dots is that dot.
proof fn lemma_last_dot(n: Seq<char>, e: Seq<char>)
    requires
        !e.contains('.'),
    ensures
        last_index_of(n + seq!['.'] + e, '.') == n.len(),
    decreases e.len(),
{
    let s = n + seq!['.'] + e;
    if e.len() == 0 {
        assert(s.last() == '.');
    } else {
        assert(e[e.len() - 1] != '.');
        assert(s.last() == e.last());
        assert(s.drop_last() =~= n + seq!['.'] + e.drop_last());
        assert forall|i: int| 0 <= i < e.drop_last().len() implies e.drop_last()[i] != '.' by {
            assert(e.drop_last()[i] == e[i]);
        }
        lemma_last_dot(n, e.drop_last());
    }
}

/// The icon name of a theme file is its file name before the last `.`: for
/// every image type but symbolic, a file `name.ext` (the name not empty, the
/// extension without dots) is the icon `name`, whatever the name ends in; a
/// symbolic file `name-symbolic.ext` is the icon `name`.
pub proof fn lemma_themed_icon_name_stem(n: Seq<char>, e: Seq<char>, t: ImageType)
    requires
        !e.contains('.'),
    ensures
        t != ImageType::Symbolic && n.len() > 0 ==> themed_icon_name(n + seq!['.'] + e, t)
            == Some(n),
        themed_icon_name(n + "-symbolic"@ + seq!['.'] + e, ImageType::Symbolic) == Some(n),
{
    reveal_strlit("-symbolic");
    lemma_last_dot(n, e);
    assert((n + seq!['.'] + e).take(n.len() as int) =~= n);
    let m = n + "-symbolic"@;
    assert(m.len() > 0);
    lemma_last_dot(m, e);
    assert((m + seq!['.'] + e).take(m.len() as int) =~= m);
    assert(m.skip(m.len() - "-symbolic"@.len()) =~= "-symbolic"@);
    assert(m.take(m.len() - "-symbolic"@.len()) =~= n);
}

/// A pixmap `name.png` is the bitmap icon `name` and `name.svg` the scalable
/// icon `name`, for every name, dots in it included.
pub proof fn lemma_pixmap_icon_stem(n: Seq<char>)
    ensures
        pixmap_icon(n + seq!['.'] + "png"@) == Some((n, ImageType::Bitmap)),
        pixmap_icon(n + seq!['.'] + "svg"@) == Some((n, ImageType::Scalable)),
{
    reveal_strlit("png");
    reveal_strlit("svg");
    assert("png"@[0] != "svg"@[0]);
    lemma_last_dot(n, "png"@);
    lemma_last_dot(n, "svg"@);
    assert((n + seq!['.'] + "png"@).take(n.len() as int) =~= n);
    assert((n + seq!['.'] + "png"@).skip(n.len() + 1int) =~= "png"@);
    assert((n + seq!['.'] + "svg"@).take(n.len() as int) =~= n);
    assert((n + seq!['.'] + "svg"@).skip(n.len() + 1int) =~= "svg"@);
}

/// Determine image type based on extension.
pub fn pixmap_icon_of_file(file_name: &str) -> (r: Option<(String, ImageType)>)
    ensures
        r matches Some((name, t)) ==> pixmap_icon(file_name@) == Some((name@, t)),
        r is None ==> pixmap_icon(file_name@) is None,
{
    let chars = to_chars(file_name);
    let dot = match rfind_char(&chars, '.') {
        Some(dot) => dot,
        None => return None,
    };
    proof {
        lemma_last_index_of(chars@, '.');
    }
    let ext_start = dot + 1;
    let ext = to_chars(&string_of(&chars, ext_start, chars.len()));
    assert(ext@ =~= chars@.skip(dot + 1));
    let svg = to_chars("svg");
    let png = to_chars("png");
    let image_type = if chars_equal(&ext, &svg) {
        ImageType::Scalable
    } else if chars_equal(&ext, &png) {
        ImageType::Bitmap
    } else {
        return None;
    };
    let name = string_of(&chars, 0, dot);
    assert(name@ =~= chars@.take(dot as int));
    Some((name, image_type))
}

/// An ASCII letter in lower case; every other character as it is.
pub open spec fn ascii_lower(c: char) -> char {
    if 'A' <= c <= 'Z' {
        ((c as u32) + 32) as char
    } else {
        c
    }
}

/// The name of an application's desktop file.
pub open spec fn desktop_file_name(app_id: Seq<char>) -> Seq<char> {
    app_id + ".desktop"@
}

/// The name of an application's desktop file, in ASCII lower case.
pub open spec fn lowercase_desktop_file_name(app_id: Seq<char>) -> Seq<char> {
    app_id.map_values(|c: char| ascii_lower(c)) + ".desktop"@
}

/// Get all possible desktop file names: `{app_id}.desktop`, then the same
/// with `app_id` in ASCII lower case.
pub fn desktop_file_names(app_id: &str) -> (r: (String, String))
    ensures
        r.0@ == desktop_file_name(app_id@),
        r.1@ == lowercase_desktop_file_name(app_id@),
{
    let id = to_chars(app_id);
    let ext = to_chars(".desktop");
    let mut plain = String::new();
    let mut lower = String::new();
    let mut i: usize = 0;
    while i < id.len()
        invariant
            i <= id@.len(),
            plain@ == id@.take(i as int),
            lower@ == id@.take(i as int).map_values(|c: char| ascii_lower(c)),
        decreases id@.len() - i,
    {
        let c = id[i];
        plain.push(c);
        let l = if 'A' <= c && c <= 'Z' {
            let b = (c as u8) + 32;
            assert(b as char == ascii_lower(c)) by {
                assert((c as u32) < 256);
            }
            b as char
        } else {
            c
        };
        lower.push(l);
        i += 1;
        assert(plain@ =~= id@.take(i as int));
        assert(lower@ =~= id@.take(i as int).map_values(|c: char| ascii_lower(c)));
    }
    let mut j: usize = 0;
    let ghost plain_id = plain@;
    let ghost lower_id = lower@;
    while j < ext.len()
        invariant
            j <= ext@.len(),
            plain@ == plain_id + ext@.take(j as int),
            lower@ == lower_id + ext@.take(j as int),
        decreases ext@.len() - j,
    {
        plain.push(ext[j]);
        lower.push(ext[j]);
        j += 1;
        assert(plain@ =~= plain_id + ext@.take(j as int));
        assert(lower@ =~= lower_id + ext@.take(j as int));
    }
    assert(ext@.take(ext@.len() as int) =~= ext@);
    assert(id@.take(id@.len() as int) =~= id@);
    (plain, lower)
}

/// The value of the first line, from position `i` on, that starts with `Icon=`.
pub open spec fn icon_line_from(lines: Seq<Seq<char>>, i: int) -> Option<Seq<char>>
    decreases lines.len() - i,
{
    if i < 0 || i >= lines.len() {
        None
    } else {
        let key = "Icon="@;
        let line = lines[i];
        if line.len() >= key.len() && line.take(key.len() as int) == key {
            Some(line.skip(key.len() as int))
        } else {
            icon_line_from(lines, i + 1)
        }
    }
}

/// The icon name that a desktop file names: the value of its first line that
/// starts with `Icon=`.
pub open spec fn desktop_icon_name(content: Seq<char>) -> Option<Seq<char>> {
    icon_line_from(lines(content), 0)
}

/// Try and extract the icon name from a desktop file.
pub fn icon_name_from_desktop(content: &str) -> (r: Option<String>)
    ensures
        r matches Some(name) ==> desktop_icon_name(content@) == Some(name@),
        r is None ==> desktop_icon_name(content@) is None,
{
    let chars = to_chars(content);
    let all_lines = lines_of(&chars);
    let ghost ls = all_lines@.map_values(|l: Vec<char>| l@);
    let key = to_chars("Icon=");
    let mut i: usize = 0;
    while i < all_lines.len()
        invariant
            i <= all_lines@.len(),
            ls == all_lines@.map_values(|l: Vec<char>| l@),
            ls == lines(content@),
            desktop_icon_name(content@) == icon_line_from(ls, i as int),
            key@ == "Icon="@,
        decreases all_lines@.len() - i,
    {
        let line = &all_lines[i];
        assert(ls[i as int] == line@);
        if starts_with_at(line, 0, &key) {
            assert(line@.subrange(0, key@.len() as int) =~= line@.take(key@.len() as int));
            let r = string_of(line, key.len(), line.len());
            assert(r@ =~= line@.skip(key@.len() as int));
            return Some(r);
        }
        proof {
            if line@.len() >= key@.len() {
                assert(line@.subrange(0, key@.len() as int) =~= line@.take(key@.len() as int));
            }
        }
        i += 1;
    }
    None
}

/// The bytes of `/usr/share/`.
pub open spec fn usr_share() -> Seq<u8> {
    seq![0x2fu8, 0x75u8, 0x73u8, 0x72u8, 0x2fu8, 0x73u8, 0x68u8, 0x61u8, 0x72u8, 0x65u8, 0x2fu8]
}

/// Calls `dirs::data_dir`, the user's data directory (`$XDG_DATA_HOME` or
/// `~/.local/share`), as the bytes of its path. It depends on the
/// environment, so the contract claims nothing of it.
#[verifier::external_body]
fn data_dir() -> Option<Vec<u8>> {
    match dirs::data_dir() {
        Some(path) => Some(path.into_os_string().into_encoded_bytes()),
        None => None,
    }
}

/// The icons map after a file of a theme directory offers an icon: a new name
/// is added; a name already found in another theme keeps its icon; within the
/// same theme a preferred image type replaces the recorded one, with its path.
pub open spec fn offer_themed(
    icons: Map<Seq<char>, IconRecordView>,
    name: Seq<char>,
    theme: Seq<char>,
    image_type: ImageType,
    path: Seq<u8>,
) -> Map<Seq<char>, IconRecordView> {
    if !icons.contains_key(name) {
        icons.insert(name, IconRecordView { theme, image_type, path })
    } else {
        let existing = icons[name];
        if existing.theme != theme {
            icons
        } else if image_order(image_type, existing.image_type) == Ordering::Greater {
            icons.insert(name, IconRecordView { image_type, path, ..existing })
        } else {
            icons
        }
    }
}

/// The icons map after a pixmap offers an icon: only names not found yet are
/// added, with an empty theme.
pub open spec fn offer_pixmap(
    icons: Map<Seq<char>, IconRecordView>,
    name: Seq<char>,
    image_type: ImageType,
    path: Seq<u8>,
) -> Map<Seq<char>, IconRecordView> {
    if icons.contains_key(name) {
        icons
    } else {
        icons.insert(name, IconRecordView { theme: Seq::empty(), image_type, path })
    }
}

/// The icon path that an icon name from a desktop file leads to.
pub open spec fn icon_path_for(
    icons: Map<Seq<char>, IconRecordView>,
    icon_name: Option<Seq<char>>,
) -> Option<Seq<u8>> {
    match icon_name {
        Some(name) => if icons.contains_key(name) {
            Some(icons[name].path)
        } else {
            None
        },
        None => None,
    }
}

/// The `app_id` cache after looking up `app_id`: an `app_id` looked up
/// before keeps its path; a new one gets the path of the icon that its
/// desktop file names.
pub open spec fn cache_after(
    app_ids: Map<Seq<char>, Option<Seq<u8>>>,
    icons: Map<Seq<char>, IconRecordView>,
    app_id: Seq<char>,
    icon_name: Option<Seq<char>>,
) -> Map<Seq<char>, Option<Seq<u8>>> {
    if app_ids.contains_key(app_id) {
        app_ids
    } else {
        app_ids.insert(app_id, icon_path_for(icons, icon_name))
    }
}

/// Once an `app_id` has been looked up, its icon path never changes: a second
/// lookup, whatever desktop file it would read, returns the first result.
pub proof fn lemma_icon_path_sticks(
    app_ids: Map<Seq<char>, Option<Seq<u8>>>,
    icons: Map<Seq<char>, IconRecordView>,
    app_id: Seq<char>,
    first: Option<Seq<char>>,
    second: Option<Seq<char>>,
)
    ensures
        cache_after(app_ids, icons, app_id, first).contains_key(app_id),
        cache_after(cache_after(app_ids, icons, app_id, first), icons, app_id, second)
            == cache_after(app_ids, icons, app_id, first),
        !app_ids.contains_key(app_id) ==> cache_after(app_ids, icons, app_id, first)[app_id]
            == icon_path_for(icons, first),
{
}

/// Offering icons never changes the theme an icon name was first found in,
/// never makes the recorded image type of a name worse, and an icon found in
/// one theme is never replaced from another theme.
pub proof fn lemma_offer_keeps_theme(
    icons: Map<Seq<char>, IconRecordView>,
    name: Seq<char>,
    theme: Seq<char>,
    image_type: ImageType,
    path: Seq<u8>,
    other: Seq<char>,
)
    requires
        icons.contains_key(other),
    ensures
        offer_themed(icons, name, theme, image_type, path).contains_key(other),
        offer_themed(icons, name, theme, image_type, path)[other].theme == icons[other].theme,
        image_order(offer_themed(icons, name, theme, image_type, path)[other].image_type, icons[other].image_type)
            != Ordering::Less,
        icons[other].theme != theme ==> offer_themed(icons, name, theme, image_type, path)[other]
            == icons[other],
        offer_pixmap(icons, name, image_type, path)[other] == icons[other],
{
}

/// A file found under a size directory of an icon theme: the theme, the name
/// of the size directory (such as `48x48`), the file's name and its path.
pub struct ThemeFile {
    pub theme: String,
    pub dir_name: String,
    pub file_name: String,
    pub path: Vec<u8>,
}

/// A file of the pixmaps directory: its name and its path.
pub struct PixmapFile {
    pub file_name: String,
    pub path: Vec<u8>,
}

/// The icon name and image type that a theme file offers, if any.
pub open spec fn theme_file_icon(f: ThemeFile) -> Option<(Seq<char>, ImageType)> {
    match dir_image_type(f.dir_name@) {
        Some(t) => match themed_icon_name(f.file_name@, t) {
            Some(name) => Some((name, t)),
            None => None,
        },
        None => None,
    }
}

/// Whether a theme file offers an icon named `name`.
pub open spec fn offers_name(f: ThemeFile, name: Seq<char>) -> bool {
    theme_file_icon(f) matches Some((n, _)) && n == name
}

/// The icons map after a theme file offers its icon.
pub open spec fn offer_theme_file(
    icons: Map<Seq<char>, IconRecordView>,
    f: ThemeFile,
) -> Map<Seq<char>, IconRecordView> {
    match theme_file_icon(f) {
        Some((name, t)) => offer_themed(icons, name, f.theme@, t, f.path@),
        None => icons,
    }
}

/// The icons map after the theme files offer their icons, in order.
pub open spec fn theme_file_icons(
    icons: Map<Seq<char>, IconRecordView>,
    files: Seq<ThemeFile>,
) -> Map<Seq<char>, IconRecordView>
    decreases files.len(),
{
    if files.len() == 0 {
        icons
    } else {
        offer_theme_file(theme_file_icons(icons, files.drop_last()), files.last())
    }
}

/// The icons map after a pixmap offers its icon.
pub open spec fn offer_pixmap_file(
    icons: Map<Seq<char>, IconRecordView>,
    f: PixmapFile,
) -> Map<Seq<char>, IconRecordView> {
    match pixmap_icon(f.file_name@) {
        Some((name, t)) => offer_pixmap(icons, name, t, f.path@),
        None => icons,
    }
}

/// The icons map after the pixmaps offer their icons, in order.
pub open spec fn pixmap_file_icons(
    icons: Map<Seq<char>, IconRecordView>,
    files: Seq<PixmapFile>,
) -> Map<Seq<char>, IconRecordView>
    decreases files.len(),
{
    if files.len() == 0 {
        icons
    } else {
        offer_pixmap_file(pixmap_file_icons(icons, files.drop_last()), files.last())
    }
}

/// The icons map after the walk over the icon directories: the theme files of
/// the user's data directory, then those of the system data directory, then
/// the pixmaps.
pub open spec fn walk_icons(
    icons: Map<Seq<char>, IconRecordView>,
    user_files: Seq<ThemeFile>,
    sys_files: Seq<ThemeFile>,
    pixmaps: Seq<PixmapFile>,
) -> Map<Seq<char>, IconRecordView> {
    pixmap_file_icons(theme_file_icons(theme_file_icons(icons, user_files), sys_files), pixmaps)
}

/// Offering theme files in two runs is offering them in one.
proof fn lemma_theme_files_concat(
    icons: Map<Seq<char>, IconRecordView>,
    a: Seq<ThemeFile>,
    b: Seq<ThemeFile>,
)
    ensures
        theme_file_icons(theme_file_icons(icons, a), b) == theme_file_icons(icons, a + b),
    decreases b.len(),
{
    if b.len() == 0 {
        assert(a + b =~= a);
    } else {
        lemma_theme_files_concat(icons, a, b.drop_last());
        assert((a + b).drop_last() =~= a + b.drop_last());
        assert((a + b).last() == b.last());
    }
}

/// Theme files never drop a name, nor change the theme it was found in.
proof fn lemma_theme_files_keep(
    icons: Map<Seq<char>, IconRecordView>,
    files: Seq<ThemeFile>,
    other: Seq<char>,
)
    requires
        icons.contains_key(other),
    ensures
        theme_file_icons(icons, files).contains_key(other),
        theme_file_icons(icons, files)[other].theme == icons[other].theme,
    decreases files.len(),
{
    if files.len() > 0 {
        lemma_theme_files_keep(icons, files.drop_last(), other);
        let prev = theme_file_icons(icons, files.drop_last());
        let f = files.last();
        if let Some((name, t)) = theme_file_icon(f) {
            lemma_offer_keeps_theme(prev, name, f.theme@, t, f.path@, other);
        }
    }
}

/// A name that no theme file offers is not added by them.
proof fn lemma_theme_files_absent(
    icons: Map<Seq<char>, IconRecordView>,
    files: Seq<ThemeFile>,
    name: Seq<char>,
)
    requires
        !icons.contains_key(name),
        forall|j: int| 0 <= j < files.len() ==> !offers_name(#[trigger] files[j], name),
    ensures
        !theme_file_icons(icons, files).contains_key(name),
    decreases files.len(),
{
    if files.len() > 0 {
        assert forall|j: int| 0 <= j < files.drop_last().len() implies !offers_name(
            #[trigger] files.drop_last()[j],
            name,
        ) by {
            assert(files.drop_last()[j] == files[j]);
        }
        lemma_theme_files_absent(icons, files.drop_last(), name);
        assert(!offers_name(files[files.len() - 1], name));
    }
}

/// The first theme file that offers a name not found before decides the
/// theme of that name.
proof fn lemma_theme_files_first(
    icons: Map<Seq<char>, IconRecordView>,
    files: Seq<ThemeFile>,
    name: Seq<char>,
    k: int,
)
    requires
        !icons.contains_key(name),
        0 <= k < files.len(),
        offers_name(files[k], name),
        forall|j: int| 0 <= j < k ==> !offers_name(#[trigger] files[j], name),
    ensures
        theme_file_icons(icons, files).contains_key(name),
        theme_file_icons(icons, files)[name].theme == files[k].theme@,
    decreases files.len(),
{
    let prev_files = files.drop_last();
    let prev = theme_file_icons(icons, prev_files);
    if k == files.len() - 1 {
        assert forall|j: int| 0 <= j < prev_files.len() implies !offers_name(
            #[trigger] prev_files[j],
            name,
        ) by {
            assert(prev_files[j] == files[j]);
        }
        lemma_theme_files_absent(icons, prev_files, name);
    } else {
        assert(prev_files[k] == files[k]);
        assert forall|j: int| 0 <= j < k implies !offers_name(#[trigger] prev_files[j], name) by {
            assert(prev_files[j] == files[j]);
        }
        lemma_theme_files_first(icons, prev_files, name, k);
        let f = files.last();
        if let Some((n, t)) = theme_file_icon(f) {
            lemma_offer_keeps_theme(prev, n, f.theme@, t, f.path@, name);
        }
    }
}

/// Pixmaps never change an icon found before.
proof fn lemma_pixmap_files_keep(
    icons: Map<Seq<char>, IconRecordView>,
    files: Seq<PixmapFile>,
    other: Seq<char>,
)
    requires
        icons.contains_key(other),
    ensures
        pixmap_file_icons(icons, files).contains_key(other),
        pixmap_file_icons(icons, files)[other] == icons[other],
    decreases files.len(),
{
    if files.len() > 0 {
        lemma_pixmap_files_keep(icons, files.drop_last(), other);
    }
}

/// The first pixmap that offers a name not found before gives its icon.
proof fn lemma_pixmap_files_first(
    icons: Map<Seq<char>, IconRecordView>,
    files: Seq<PixmapFile>,
    name: Seq<char>,
    t: ImageType,
    k: int,
)
    requires
        !icons.contains_key(name),
        0 <= k < files.len(),
        pixmap_icon(files[k].file_name@) == Some((name, t)),
        forall|j: int|
            0 <= j < k ==> !(pixmap_icon(#[trigger] files[j].file_name@) matches Some((n, _))
                && n == name),
    ensures
        pixmap_file_icons(icons, files).contains_key(name),
        pixmap_file_icons(icons, files)[name] == (IconRecordView {
            theme: Seq::empty(),
            image_type: t,
            path: files[k].path@,
        }),
    decreases files.len(),
{
    let prev_files = files.drop_last();
    if k == files.len() - 1 {
        lemma_pixmap_files_absent(icons, prev_files, name);
    } else {
        assert(prev_files[k] == files[k]);
        assert forall|j: int| 0 <= j < k implies !(pixmap_icon(
            #[trigger] prev_files[j].file_name@,
        ) matches Some((n, _)) && n == name) by {
            assert(prev_files[j] == files[j]);
        }
        lemma_pixmap_files_first(icons, prev_files, name, t, k);
    }
}

/// A name that no pixmap among the first `files.len()` offers is not added.
proof fn lemma_pixmap_files_absent(
    icons: Map<Seq<char>, IconRecordView>,
    files: Seq<PixmapFile>,
    name: Seq<char>,
)
    requires
        !icons.contains_key(name),
        forall|j: int|
            0 <= j < files.len() ==> !(pixmap_icon(#[trigger] files[j].file_name@) matches Some(
                (n, _),
            ) && n == name),
    ensures
        !pixmap_file_icons(icons, files).contains_key(name),
    decreases files.len(),
{
    if files.len() > 0 {
        assert forall|j: int| 0 <= j < files.drop_last().len() implies !(pixmap_icon(
            #[trigger] files.drop_last()[j].file_name@,
        ) matches Some((n, _)) && n == name) by {
            assert(files.drop_last()[j] == files[j]);
        }
        lemma_pixmap_files_absent(icons, files.drop_last(), name);
        assert(files.last() == files[files.len() - 1]);
    }
}

/// Theme precedence of the icon walk: a name not found before takes the
/// theme of the first file of the walk (the user's data directory first, then
/// the system one, each in the order of its themes) that offers it, and keeps
/// that theme whatever theme files and pixmaps follow.
pub proof fn lemma_walk_first_theme_wins(
    icons: Map<Seq<char>, IconRecordView>,
    user_files: Seq<ThemeFile>,
    sys_files: Seq<ThemeFile>,
    pixmaps: Seq<PixmapFile>,
    name: Seq<char>,
    k: int,
)
    requires
        !icons.contains_key(name),
        0 <= k < (user_files + sys_files).len(),
        offers_name((user_files + sys_files)[k], name),
        forall|j: int| 0 <= j < k ==> !offers_name(#[trigger] (user_files + sys_files)[j], name),
    ensures
        walk_icons(icons, user_files, sys_files, pixmaps).contains_key(name),
        walk_icons(icons, user_files, sys_files, pixmaps)[name].theme == (user_files
            + sys_files)[k].theme@,
{
    lemma_theme_files_concat(icons, user_files, sys_files);
    lemma_theme_files_first(icons, user_files + sys_files, name, k);
    lemma_pixmap_files_keep(theme_file_icons(icons, user_files + sys_files), pixmaps, name);
}

/// Pixmaps only fill gaps: a name not found before that no theme file of the
/// walk offers takes the icon of the first pixmap that offers it, with an
/// empty theme.
pub proof fn lemma_walk_pixmap_fills_gap(
    icons: Map<Seq<char>, IconRecordView>,
    user_files: Seq<ThemeFile>,
    sys_files: Seq<ThemeFile>,
    pixmaps: Seq<PixmapFile>,
    name: Seq<char>,
    t: ImageType,
    k: int,
)
    requires
        !icons.contains_key(name),
        forall|j: int|
            0 <= j < (user_files + sys_files).len() ==> !offers_name(
                #[trigger] (user_files + sys_files)[j],
                name,
            ),
        0 <= k < pixmaps.len(),
        pixmap_icon(pixmaps[k].file_name@) == Some((name, t)),
        forall|j: int|
            0 <= j < k ==> !(pixmap_icon(#[trigger] pixmaps[j].file_name@) matches Some((n, _))
                && n == name),
    ensures
        walk_icons(icons, user_files, sys_files, pixmaps).contains_key(name),
        walk_icons(icons, user_files, sys_files, pixmaps)[name] == (IconRecordView {
            theme: Seq::empty(),
            image_type: t,
            path: pixmaps[k].path@,
        }),
{
    lemma_theme_files_concat(icons, user_files, sys_files);
    lemma_theme_files_absent(icons, user_files + sys_files, name);
    lemma_pixmap_files_first(theme_file_icons(icons, user_files + sys_files), pixmaps, name, t, k);
}

/// Simple loader for app icons.
pub struct IconLoader {
    icons: StrTable<IconRecord>,
    app_ids: StrTable<Option<Vec<u8>>>,
    user_dir: Vec<u8>,
    sys_dir: Vec<u8>,
}

impl IconLoader {
    /// Both tables are well formed.
    pub closed spec fn wf(&self) -> bool {
        self.icons.wf() && self.app_ids.wf()
    }

    /// The icons found, by name.
    pub closed spec fn icons(&self) -> Map<Seq<char>, IconRecordView> {
        self.icons.view()
    }

    /// The `app_id` cache: the icon path found for each `app_id` looked up.
    pub closed spec fn app_ids(&self) -> Map<Seq<char>, Option<Seq<u8>>> {
        self.app_ids.view()
    }

    /// The user's data directory.
    pub closed spec fn user_dir_view(&self) -> Seq<u8> {
        self.user_dir@
    }

    /// The system data directory.
    pub closed spec fn sys_dir_view(&self) -> Seq<u8> {
        self.sys_dir@
    }

    /// Initialize the icon loader with the user's data directory, as
    /// `dirs::data_dir` finds it, and `/usr/share/`, and no icons yet.
    pub fn new() -> (r: Self)
        ensures
            r.wf(),
            r.icons() == Map::<Seq<char>, IconRecordView>::empty(),
            r.app_ids() == Map::<Seq<char>, Option<Seq<u8>>>::empty(),
            r.sys_dir_view() == usr_share(),
    {
        Self::with_data_dir(data_dir())
    }

    /// An icon loader over the user's data directory `dir` (empty where there
    /// is none) and `/usr/share/`, with no icons yet.
    pub fn with_data_dir(dir: Option<Vec<u8>>) -> (r: Self)
        ensures
            r.wf(),
            r.icons() == Map::<Seq<char>, IconRecordView>::empty(),
            r.app_ids() == Map::<Seq<char>, Option<Seq<u8>>>::empty(),
            r.sys_dir_view() == usr_share(),
            r.user_dir_view() == match dir {
                Some(d) => d@,
                None => Seq::<u8>::empty(),
            },
    {
        let user_dir = match dir {
            Some(d) => d,
            None => Vec::new(),
        };
        let sys_dir: Vec<u8> = vec![
            0x2fu8, 0x75u8, 0x73u8, 0x72u8, 0x2fu8, 0x73u8, 0x68u8, 0x61u8, 0x72u8, 0x65u8, 0x2fu8,
        ];
        assert(sys_dir@ =~= usr_share());
        IconLoader { icons: StrTable::new(), app_ids: StrTable::new(), user_dir, sys_dir }
    }

    /// An icon loader over the given data directories, with no icons yet.
    pub fn with_dirs(user_dir: Vec<u8>, sys_dir: Vec<u8>) -> (r: Self)
        ensures
            r.wf(),
            r.icons() == Map::<Seq<char>, IconRecordView>::empty(),
            r.app_ids() == Map::<Seq<char>, Option<Seq<u8>>>::empty(),
            r.user_dir_view() == user_dir@,
            r.sys_dir_view() == sys_dir@,
    {
        IconLoader { icons: StrTable::new(), app_ids: StrTable::new(), user_dir, sys_dir }
    }

    /// The user's data directory.
    pub fn user_dir(&self) -> (r: &Vec<u8>)
        ensures
            r@ == self.user_dir_view(),
    {
        &self.user_dir
    }

    /// The system data directory.
    pub fn sys_dir(&self) -> (r: &Vec<u8>)
        ensures
            r@ == self.sys_dir_view(),
    {
        &self.sys_dir
    }

    /// Store the icon path of a theme file, unless a better one was found
    /// already.
    pub fn offer_themed_icon(
        &mut self,
        name: String,
        theme: &String,
        image_type: ImageType,
        path: Vec<u8>,
    )
        requires
            old(self).wf(),
        ensures
            final(self).wf(),
            final(self).icons() == offer_themed(
                old(self).icons(),
                name@,
                theme@,
                image_type,
                path@,
            ),
            final(self).app_ids() == old(self).app_ids(),
            final(self).user_dir_view() == old(self).user_dir_view(),
            final(self).sys_dir_view() == old(self).sys_dir_view(),
    {
        let record = match self.icons.get(&name) {
            Some(existing) => {
                // Ignore lower-priority themes.
                if existing.theme != *theme {
                    return;
                }
                // Replace icon if a bigger/scaleable one is found.
                if !image_type.is_preferred_over(&existing.image_type) {
                    return;
                }
                IconRecord { theme: existing.theme.clone(), image_type, path }
            },
            None => IconRecord { theme: theme.clone(), image_type, path },
        };
        self.icons.insert(name, record);
    }

    /// Add an icon from the pixmaps directory, unless one of that name was
    /// found already.
    pub fn offer_pixmap_icon(&mut self, name: String, image_type: ImageType, path: Vec<u8>)
        requires
            old(self).wf(),
        ensures
            final(self).wf(),
            final(self).icons() == offer_pixmap(old(self).icons(), name@, image_type, path@),
            final(self).app_ids() == old(self).app_ids(),
            final(self).user_dir_view() == old(self).user_dir_view(),
            final(self).sys_dir_view() == old(self).sys_dir_view(),
    {
        if !self.icons.contains_key(&name) {
            self.icons.insert(name, IconRecord { theme: String::new(), image_type, path });
        }
    }

    /// Offers the icons of theme files, in order.
    fn offer_theme_files(&mut self, files: &Vec<ThemeFile>)
        requires
            old(self).wf(),
        ensures
            final(self).wf(),
            final(self).icons() == theme_file_icons(old(self).icons(), files@),
            final(self).app_ids() == old(self).app_ids(),
            final(self).user_dir_view() == old(self).user_dir_view(),
            final(self).sys_dir_view() == old(self).sys_dir_view(),
    {
        let mut i: usize = 0;
        while i < files.len()
            invariant
                i <= files@.len(),
                self.wf(),
                self.icons() == theme_file_icons(old(self).icons(), files@.take(i as int)),
                self.app_ids() == old(self).app_ids(),
                self.user_dir_view() == old(self).user_dir_view(),
                self.sys_dir_view() == old(self).sys_dir_view(),
            decreases files@.len() - i,
        {
            let f = &files[i];
            assert(files@.take(i + 1).drop_last() =~= files@.take(i as int));
            assert(files@.take(i + 1).last() == *f);
            // Handle standardized icon theme directory layout.
            match classify_dir_name(f.dir_name.as_str()) {
                Some(image_type) => match icon_name_of_file(f.file_name.as_str(), image_type) {
                    Some(name) => {
                        let path = f.path.clone();
                        assert(path@ =~= f.path@);
                        self.offer_themed_icon(name, &f.theme, image_type, path);
                    },
                    None => {},
                },
                None => {},
            }
            i += 1;
        }
        assert(files@.take(files@.len() as int) =~= files@);
    }

    /// Offers the icons of pixmaps, in order.
    fn offer_pixmap_files(&mut self, files: &Vec<PixmapFile>)
        requires
            old(self).wf(),
        ensures
            final(self).wf(),
            final(self).icons() == pixmap_file_icons(old(self).icons(), files@),
            final(self).app_ids() == old(self).app_ids(),
            final(self).user_dir_view() == old(self).user_dir_view(),
            final(self).sys_dir_view() == old(self).sys_dir_view(),
    {
        let mut i: usize = 0;
        while i < files.len()
            invariant
                i <= files@.len(),
                self.wf(),
                self.icons() == pixmap_file_icons(old(self).icons(), files@.take(i as int)),
                self.app_ids() == old(self).app_ids(),
                self.user_dir_view() == old(self).user_dir_view(),
                self.sys_dir_view() == old(self).sys_dir_view(),
            decreases files@.len() - i,
        {
            let f = &files[i];
            assert(files@.take(i + 1).drop_last() =~= files@.take(i as int));
            assert(files@.take(i + 1).last() == *f);
            match pixmap_icon_of_file(f.file_name.as_str()) {
                Some((name, image_type)) => {
                    let path = f.path.clone();
                    assert(path@ =~= f.path@);
                    self.offer_pixmap_icon(name, image_type, path);
                },
                None => {},
            }
            i += 1;
        }
        assert(files@.take(files@.len() as int) =~= files@);
    }

    /// Stores the icons of a walk over the icon directories: the files under
    /// the themes of the user's data directory, then those of the system data
    /// directory, each listed in the order of its theme fallback hierarchy,
    /// then the files of the pixmaps directory. Once an icon is found in a
    /// theme, themes of lesser priority are ignored for it.
    pub fn load_icons(
        &mut self,
        user_files: &Vec<ThemeFile>,
        sys_files: &Vec<ThemeFile>,
        pixmaps: &Vec<PixmapFile>,
    )
        requires
            old(self).wf(),
        ensures
            final(self).wf(),
            final(self).icons() == walk_icons(old(self).icons(), user_files@, sys_files@, pixmaps@),
            final(self).app_ids() == old(self).app_ids(),
            final(self).user_dir_view() == old(self).user_dir_view(),
            final(self).sys_dir_view() == old(self).sys_dir_view(),
    {
        // Iterate on all XDG_DATA_DIRS to look for icons.
        self.offer_theme_files(user_files);
        self.offer_theme_files(sys_files);
        // Add pixmaps last, this path is hardcoded in the specification.
        self.offer_pixmap_files(pixmaps);
    }

    /// Whether the icon of `app_id` has been looked up before.
    pub fn is_cached(&self, app_id: &String) -> (r: bool)
        requires
            self.wf(),
        ensures
            r == self.app_ids().contains_key(app_id@),
    {
        self.app_ids.contains_key(app_id)
    }

    /// The cached icon path of an `app_id` looked up before.
    pub fn cached_icon_path(&self, app_id: &String) -> (r: Option<Vec<u8>>)
        requires
            self.wf(),
            self.app_ids().contains_key(app_id@),
        ensures
            r.deep_view() == self.app_ids()[app_id@],
    {
        match self.app_ids.get(app_id) {
            Some(Some(p)) => {
                let c = p.clone();
                assert(c@ =~= p@);
                Some(c)
            },
            _ => None,
        }
    }

    /// Get an icon from its Wayland `app_id`. Where the `app_id` was looked up
    /// before, the cached path is returned and `icon_name` is not used; else
    /// `icon_name` (the icon that the application's desktop file names, if
    /// any) is looked up in the icons and the result cached.
    pub fn icon_path(&mut self, app_id: &String, icon_name: Option<String>) -> (r: Option<Vec<u8>>)
        requires
            old(self).wf(),
        ensures
            final(self).wf(),
            final(self).app_ids() == cache_after(
                old(self).app_ids(),
                old(self).icons(),
                app_id@,
                match icon_name {
                    Some(n) => Some(n@),
                    None => None,
                },
            ),
            r.deep_view() == final(self).app_ids()[app_id@],
            final(self).icons() == old(self).icons(),
            final(self).user_dir_view() == old(self).user_dir_view(),
            final(self).sys_dir_view() == old(self).sys_dir_view(),
    {
        if !self.app_ids.contains_key(app_id) {
            // Load the path from the icon cache.
            let icon_path: Option<Vec<u8>> = match icon_name {
                Some(name) => match self.icons.get(&name) {
                    Some(record) => {
                        let p = record.path.clone();
                        assert(p@ =~= record.path@);
                        assert(p.deep_view() =~= p@);
                        Some(p)
                    },
                    None => None,
                },
                None => None,
            };
            // Update the icon cache.
            self.app_ids.insert(app_id.clone(), icon_path);
        }
        match self.app_ids.get(app_id) {
            Some(Some(p)) => {
                let c = p.clone();
                assert(c@ =~= p@);
                Some(c)
            },
            _ => None,
        }
    }
}

/// A size directory `NxN` is a bitmap of size `N`, for every size up to
/// `u32::MAX`; `NxM` with two different sizes is no size directory.
pub proof fn lemma_dir_image_type_sizes(a: nat, b: nat)
    requires
        a <= u32::MAX,
        b <= u32::MAX,
    ensures
        dir_image_type(decimal(a) + seq!['x'] + decimal(b)) == if a == b {
            Some(ImageType::SizedBitmap(a as u32))
        } else {
            None
        },
{
    reveal_strlit("scalable");
    reveal_strlit("symbolic");
    let s = decimal(a) + seq!['x'] + decimal(b);
    lemma_decimal_len(a);
    lemma_decimal_len(b);
    assert(s[0] == decimal(a)[0]);
    assert(s[0] != "scalable"@[0]);
    assert(s[0] != "symbolic"@[0]);
    lemma_find_after_digits(decimal(a), 'x', decimal(b), 0);
    assert(s.take(decimal(a).len() as int) =~= decimal(a));
    assert(s.skip(decimal(a).len() + 1int) =~= decimal(b));
    lemma_parse_decimal(a, u32::MAX as int);
    lemma_parse_decimal(b, u32::MAX as int);
}

} // verus!
