use openshoot_core::gallery::{escape_html_str, generate_html, thumb_rel_for};

#[test]
fn html_contains_doctype_and_title() {
    let photos = vec![
        ("photos/a.jpg".to_string(), "Foto A".to_string()),
        ("photos/b.jpg".to_string(), "Foto <B>".to_string()),
    ];
    let html = generate_html(&photos, "Minha Galeria").expect("html");
    assert!(html.contains("<html"), "deve conter tag <html>");
    assert!(html.contains("Minha Galeria"), "deve conter o título");
    assert!(html.contains("thumbs/a.jpg"));
    assert!(html.contains("photos/a.jpg"));
    assert!(!html.contains("Foto <B>"));
    assert!(html.contains("Foto &lt;B&gt;"));
    assert!(html.contains(":target"), "lightbox via CSS :target");
    assert!(!html.contains("http://") && !html.contains("https://"), "sem dependências externas");
}

#[test]
fn blank_title_is_refused() {
    let photos = vec![("photos/a.jpg".to_string(), "A".to_string())];
    assert_eq!(generate_html(&photos, "   "), Err("título vazio".to_string()));
    assert!(generate_html(&photos, "").is_err());
}

#[test]
fn count_is_singular_for_one_photo() {
    let one = vec![("photos/a.jpg".to_string(), "A".to_string())];
    assert!(generate_html(&one, "T").unwrap().contains("<p>1 foto</p>"));
    let none: Vec<(String, String)> = Vec::new();
    assert!(generate_html(&none, "T").unwrap().contains("<p>0 fotos</p>"));
    let twelve: Vec<(String, String)> =
        (0..12).map(|i| (format!("photos/{i}.jpg"), format!("{i}"))).collect();
    let html = generate_html(&twelve, "T").unwrap();
    assert!(html.contains("<p>12 fotos</p>"));
    assert!(html.contains("href=\"#p11\""));
    assert!(html.contains("id=\"p11\""));
}

#[test]
fn thumbnail_path_uses_stem() {
    assert_eq!(thumb_rel_for("photos/foo.CR3"), "thumbs/foo.jpg");
    assert_eq!(thumb_rel_for("photos/a.b.jpg"), "thumbs/a.b.jpg");
}

#[test]
fn escapes_all_special_characters() {
    assert_eq!(escape_html_str("&<>\"'x"), "&amp;&lt;&gt;&quot;&#39;x");
}

#[test]
fn title_is_escaped_in_page() {
    let html = generate_html(&[], "A & B").unwrap();
    assert!(html.contains("<title>A &amp; B</title>"));
    assert!(html.contains("<h1>A &amp; B</h1>"));
    assert!(html.starts_with("<!DOCTYPE html>\n<html lang=\"pt-BR\">"));
    assert!(html.ends_with("<footer>OpenShoot</footer>\n</body>\n</html>\n"));
}

use openshoot_core::gallery::{
    export_stem_for, gallery_ext, gallery_file_name, gallery_photo_rel, gallery_thumb_name,
    gallery_title,
};

#[test]
fn gallery_file_names() {
    assert_eq!(export_stem_for("/fotos/IMG_0001.CR3", 5), "IMG_0001");
    assert_eq!(export_stem_for("/", -3), "foto_-3");
    assert_eq!(gallery_ext("/fotos/IMG_0001.CR3"), "cr3");
    assert_eq!(gallery_ext("/fotos/semext"), "jpg");
    assert_eq!(gallery_file_name("IMG", "jpg", 0), "IMG.jpg");
    assert_eq!(gallery_file_name("IMG", "jpg", 3), "IMG_3.jpg");
    assert_eq!(gallery_thumb_name("IMG_3.tar.jpg"), "IMG_3.tar.jpg");
    assert_eq!(gallery_thumb_name("IMG_3.cr3"), "IMG_3.jpg");
    assert_eq!(gallery_thumb_name("semponto"), "semponto.jpg");
    assert_eq!(gallery_photo_rel("IMG.jpg"), "photos/IMG.jpg");
    assert_eq!(gallery_title("  Casamento "), Ok("Casamento".to_string()));
    assert_eq!(gallery_title(" \t "), Err("título vazio".to_string()));
}

#[test]
fn escaped_text_has_no_markup_characters() {
    let out = escape_html_str("<script>alert(\"x\")</script> & 'y'");
    assert!(!out.contains(['<', '>', '"', '\'']));
    assert_eq!(escape_html_str("a<b"), "a&lt;b");
}
