use file_organizer::catalog::category_for;
use file_organizer::text::{append_decimal, chars_ci_eq, ci_le, extension_of, starts_with_dot, str_eq};

#[test]
fn category_known_groups() {
    assert_eq!(category_for("jpg"), "Imagens");
    assert_eq!(category_for("png"), "Imagens");
    assert_eq!(category_for("mp4"), "Vídeos");
    assert_eq!(category_for("pdf"), "Documentos/Logs");
    assert_eq!(category_for("mp3"), "Áudio");
    assert_eq!(category_for("zip"), "Arquivos Compactados");
    assert_eq!(category_for("exe"), "Instaladores/Executáveis");
    assert_eq!(category_for("rs"), "Código");
    assert_eq!(category_for("psd"), "Design/Vetores");
    assert_eq!(category_for("ttf"), "Fontes");
    assert_eq!(category_for("sqlite"), "Bancos de Dados");
    assert_eq!(category_for("epub"), "E-books");
    assert_eq!(category_for("blend"), "modelos 3D");
    assert_eq!(category_for("toml"), "Configurações");
    assert_eq!(category_for("xlsx"), "Planilhas");
    assert_eq!(category_for("pptx"), "Apresentações");
}

#[test]
fn category_unknown_is_catch_all() {
    assert_eq!(category_for("xyzzy"), "Outros");
    assert_eq!(category_for(""), "Outros");
    assert_eq!(category_for("jpgx"), "Outros");
}

#[test]
fn category_case_insensitive_round_trip() {
    assert_eq!(category_for("JPG"), category_for("jpg"));
    assert_eq!(category_for("JPG"), "Imagens");
    assert_eq!(category_for("Mp4"), "Vídeos");
    assert_eq!(category_for("PDF"), category_for("pdf"));
    assert_eq!(category_for("ZiP"), "Arquivos Compactados");
}

#[test]
fn hidden_names_start_with_dot() {
    assert!(starts_with_dot(".bashrc"));
    assert!(starts_with_dot("."));
    assert!(!starts_with_dot("bashrc"));
    assert!(!starts_with_dot(""));
}

#[test]
fn case_insensitive_equality() {
    assert!(chars_ci_eq("JPG", "jpg"));
    assert!(chars_ci_eq("", ""));
    assert!(!chars_ci_eq("jpg", "jpeg"));
    assert!(chars_ci_eq("AbC", "aBc"));
}

#[test]
fn case_insensitive_order() {
    assert!(ci_le("apple", "Banana"));
    assert!(!ci_le("cherry", "Banana"));
    assert!(ci_le("same", "SAME"));
    assert!(ci_le("", "a"));
    assert!(ci_le("ab", "abc"));
}

#[test]
fn exact_string_equality() {
    assert!(str_eq("abc", "abc"));
    assert!(!str_eq("abc", "Abc"));
    assert!(!str_eq("abc", "abcd"));
}

#[test]
fn extension_extraction() {
    assert_eq!(extension_of("photo.jpg"), "jpg");
    assert_eq!(extension_of("archive.tar.gz"), "gz");
    assert_eq!(extension_of(".bashrc"), "");
    assert_eq!(extension_of("noext"), "");
    assert_eq!(extension_of(""), "");
}

#[test]
fn decimal_rendering() {
    let mut s = String::new();
    append_decimal(&mut s, 0);
    assert_eq!(s, "0");
    let mut s = String::from("n=");
    append_decimal(&mut s, 120);
    assert_eq!(s, "n=120");
    let mut s = String::new();
    append_decimal(&mut s, 9876543210);
    assert_eq!(s, "9876543210");
}
