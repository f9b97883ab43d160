use stele_undead::image_type::ImageType;
use stele_undead::xdg::{
    classify_dir_name, desktop_file_names, icon_name_from_desktop, icon_name_of_file,
    pixmap_icon_of_file, IconLoader, PixmapFile, ThemeFile,
};
use std::cmp::Ordering;

#[test]
fn image_type_order() {
    assert_eq!(ImageType::Scalable.compare(&ImageType::SizedBitmap(512)), Ordering::Greater);
    assert_eq!(ImageType::SizedBitmap(48).compare(&ImageType::SizedBitmap(64)), Ordering::Less);
    assert_eq!(ImageType::SizedBitmap(64).compare(&ImageType::SizedBitmap(48)), Ordering::Greater);
    assert_eq!(ImageType::SizedBitmap(16).compare(&ImageType::Bitmap), Ordering::Greater);
    assert_eq!(ImageType::Bitmap.compare(&ImageType::Symbolic), Ordering::Greater);
    assert_eq!(ImageType::Symbolic.compare(&ImageType::Scalable), Ordering::Less);
    assert_eq!(ImageType::Symbolic.compare(&ImageType::Symbolic), Ordering::Equal);
    assert_eq!(ImageType::SizedBitmap(32).compare(&ImageType::SizedBitmap(32)), Ordering::Equal);
    assert!(ImageType::Scalable.is_preferred_over(&ImageType::Bitmap));
    assert!(!ImageType::Bitmap.is_preferred_over(&ImageType::Bitmap));
}

#[test]
fn classify_theme_directories() {
    assert_eq!(classify_dir_name("scalable"), Some(ImageType::Scalable));
    assert_eq!(classify_dir_name("symbolic"), Some(ImageType::Symbolic));
    assert_eq!(classify_dir_name("48x48"), Some(ImageType::SizedBitmap(48)));
    assert_eq!(classify_dir_name("48x32"), None);
    assert_eq!(classify_dir_name("48x48@2"), None);
    assert_eq!(classify_dir_name("x"), None);
    assert_eq!(classify_dir_name("apps"), None);
    assert_eq!(classify_dir_name("+8x8"), Some(ImageType::SizedBitmap(8)));
}

#[test]
fn themed_file_names() {
    assert_eq!(icon_name_of_file("firefox.png", ImageType::SizedBitmap(48)), Some("firefox".into()));
    assert_eq!(icon_name_of_file("a.b.svg", ImageType::Scalable), Some("a.b".into()));
    assert_eq!(icon_name_of_file(".hidden", ImageType::Scalable), None);
    assert_eq!(icon_name_of_file("noext", ImageType::Scalable), None);
    assert_eq!(icon_name_of_file("mail-symbolic.svg", ImageType::Symbolic), Some("mail".into()));
    assert_eq!(icon_name_of_file("mail.svg", ImageType::Symbolic), None);
    assert_eq!(icon_name_of_file("-symbolic.svg", ImageType::Symbolic), Some("".into()));
}

#[test]
fn pixmap_file_names() {
    assert_eq!(pixmap_icon_of_file("vim.svg"), Some(("vim".into(), ImageType::Scalable)));
    assert_eq!(pixmap_icon_of_file("vim.png"), Some(("vim".into(), ImageType::Bitmap)));
    assert_eq!(pixmap_icon_of_file("vim.xpm"), None);
    assert_eq!(pixmap_icon_of_file("vim"), None);
    assert_eq!(pixmap_icon_of_file(".png"), Some(("".into(), ImageType::Bitmap)));
}

#[test]
fn desktop_names() {
    let (plain, lower) = desktop_file_names("Org.Gnome.Nautilus");
    assert_eq!(plain, "Org.Gnome.Nautilus.desktop");
    assert_eq!(lower, "org.gnome.nautilus.desktop");
    let (_, lower) = desktop_file_names("ÄBC");
    assert_eq!(lower, "Äbc.desktop");
}

#[test]
fn desktop_icon_key() {
    let content = "[Desktop Entry]\r\nName=Files\r\nIcon=org.gnome.Nautilus\r\nIcon=other\r\n";
    assert_eq!(icon_name_from_desktop(content), Some("org.gnome.Nautilus".into()));
    assert_eq!(icon_name_from_desktop("[Desktop Entry]\n Icon=x\nName=y"), None);
    assert_eq!(icon_name_from_desktop("Icon="), Some("".into()));
}

#[test]
fn themed_icons_keep_first_theme() {
    let mut loader = IconLoader::with_dirs(b"/home/u/.local/share".to_vec(), b"/usr/share/".to_vec());
    let adwaita = "Adwaita".to_string();
    let hicolor = "hicolor".to_string();
    loader.offer_themed_icon("firefox".into(), &adwaita, ImageType::SizedBitmap(16), b"/a/16".to_vec());
    // A bigger bitmap of the same theme replaces the path.
    loader.offer_themed_icon("firefox".into(), &adwaita, ImageType::SizedBitmap(48), b"/a/48".to_vec());
    // Another theme never replaces it.
    loader.offer_themed_icon("firefox".into(), &hicolor, ImageType::Scalable, b"/h/svg".to_vec());
    // A smaller one does not replace it.
    loader.offer_themed_icon("firefox".into(), &adwaita, ImageType::SizedBitmap(8), b"/a/8".to_vec());
    // Pixmaps never replace a themed icon.
    loader.offer_pixmap_icon("firefox".into(), ImageType::Scalable, b"/p/firefox.svg".to_vec());
    loader.offer_pixmap_icon("vim".into(), ImageType::Bitmap, b"/p/vim.png".to_vec());
    let id = "firefox".to_string();
    assert_eq!(loader.icon_path(&id, Some("firefox".into())), Some(b"/a/48".to_vec()));
    let vim = "vim".to_string();
    assert_eq!(loader.icon_path(&vim, Some("vim".into())), Some(b"/p/vim.png".to_vec()));
}

#[test]
fn best_icon_of_theme_wins() {
    let mut loader = IconLoader::with_dirs(Vec::new(), Vec::new());
    let theme = "t".to_string();
    loader.offer_themed_icon("a".into(), &theme, ImageType::SizedBitmap(16), b"16".to_vec());
    loader.offer_themed_icon("a".into(), &theme, ImageType::SizedBitmap(48), b"48".to_vec());
    // The recorded type is now 48, so a 32 found later does not replace it.
    loader.offer_themed_icon("a".into(), &theme, ImageType::SizedBitmap(32), b"32".to_vec());
    let id = "a".to_string();
    assert_eq!(loader.icon_path(&id, Some("a".into())), Some(b"48".to_vec()));
    // A scalable icon beats every bitmap.
    loader.offer_themed_icon("b".into(), &theme, ImageType::SizedBitmap(512), b"512".to_vec());
    loader.offer_themed_icon("b".into(), &theme, ImageType::Scalable, b"svg".to_vec());
    loader.offer_themed_icon("b".into(), &theme, ImageType::SizedBitmap(1024), b"1024".to_vec());
    let id = "b".to_string();
    assert_eq!(loader.icon_path(&id, Some("b".into())), Some(b"svg".to_vec()));
}

#[test]
fn icon_path_is_cached() {
    let mut loader = IconLoader::with_dirs(Vec::new(), Vec::new());
    let theme = "t".to_string();
    loader.offer_themed_icon("term".into(), &theme, ImageType::Scalable, b"/term.svg".to_vec());
    let id = "Alacritty".to_string();
    assert!(!loader.is_cached(&id));
    assert_eq!(loader.icon_path(&id, Some("missing".into())), None);
    assert!(loader.is_cached(&id));
    // The first result sticks.
    assert_eq!(loader.icon_path(&id, Some("term".into())), None);
    let other = "foot".to_string();
    assert_eq!(loader.icon_path(&other, Some("term".into())), Some(b"/term.svg".to_vec()));
    assert_eq!(loader.cached_icon_path(&other), Some(b"/term.svg".to_vec()));
    let none = "x".to_string();
    assert_eq!(loader.icon_path(&none, None), None);
}

#[test]
fn loader_data_dirs() {
    let loader = IconLoader::with_data_dir(Some(b"/home/u/.local/share".to_vec()));
    assert_eq!(loader.user_dir(), &b"/home/u/.local/share".to_vec());
    assert_eq!(loader.sys_dir(), &b"/usr/share/".to_vec());
    let loader = IconLoader::with_data_dir(None);
    assert_eq!(loader.user_dir(), &Vec::<u8>::new());
    assert_eq!(loader.sys_dir(), &b"/usr/share/".to_vec());
}

#[test]
fn new_loader_uses_usr_share() {
    let loader = IconLoader::new();
    assert_eq!(loader.sys_dir(), &b"/usr/share/".to_vec());
    let id = "anything".to_string();
    assert!(!loader.is_cached(&id));
}

fn theme_file(theme: &str, dir_name: &str, file_name: &str, path: &str) -> ThemeFile {
    ThemeFile {
        theme: theme.to_string(),
        dir_name: dir_name.to_string(),
        file_name: file_name.to_string(),
        path: path.as_bytes().to_vec(),
    }
}

#[test]
fn walk_user_directory_first() {
    let mut loader = IconLoader::with_dirs(Vec::new(), Vec::new());
    let user = vec![
        theme_file("Papirus", "apps", "firefox.svg", "/u/apps/firefox.svg"),
        theme_file("Papirus", "16x16", "firefox.png", "/u/16/firefox.png"),
        theme_file("Papirus", "32x32", "firefox.png", "/u/32/firefox.png"),
        theme_file("hicolor", "scalable", "firefox.svg", "/u/h/firefox.svg"),
        theme_file("hicolor", "symbolic", "mail-symbolic.svg", "/u/h/mail-symbolic.svg"),
    ];
    let sys = vec![
        theme_file("Adwaita", "scalable", "firefox.svg", "/s/firefox.svg"),
        theme_file("Adwaita", "48x48", "foot.png", "/s/foot.png"),
        theme_file("Adwaita", "48x48", "mail.png", "/s/mail.png"),
    ];
    let pixmaps = vec![
        PixmapFile { file_name: "foot.svg".into(), path: b"/p/foot.svg".to_vec() },
        PixmapFile { file_name: "vim.xpm".into(), path: b"/p/vim.xpm".to_vec() },
        PixmapFile { file_name: "vim.png".into(), path: b"/p/vim.png".to_vec() },
        PixmapFile { file_name: "vim.svg".into(), path: b"/p/vim.svg".to_vec() },
    ];
    loader.load_icons(&user, &sys, &pixmaps);
    let mut path = |id: &str| loader.icon_path(&id.to_string(), Some(id.to_string()));
    // The user's Papirus theme wins, with its biggest bitmap; `apps` is no size directory.
    assert_eq!(path("firefox"), Some(b"/u/32/firefox.png".to_vec()));
    // A symbolic icon of the user's hicolor theme beats the system's bitmap.
    assert_eq!(path("mail"), Some(b"/u/h/mail-symbolic.svg".to_vec()));
    // A system theme icon beats a pixmap.
    assert_eq!(path("foot"), Some(b"/s/foot.png".to_vec()));
    // The first pixmap of a name fills the gap.
    assert_eq!(path("vim"), Some(b"/p/vim.png".to_vec()));
}
