//! Extension catalog: the total, case-insensitive mapping from a file
//! extension to its storage category label. Every extension falls into
//! exactly one group; anything unknown lands in the catch-all label.

use vstd::prelude::*;
use crate::text::{ci_eq, chars_ci_eq};

verus! {

pub open spec fn is_image_ext(e: Seq<char>) -> bool {
    ci_eq(e, "jpg"@) || ci_eq(e, "jpeg"@) || ci_eq(e, "png"@) || ci_eq(e, "gif"@)
        || ci_eq(e, "webp"@) || ci_eq(e, "bmp"@) || ci_eq(e, "svg"@) || ci_eq(e, "ico"@)
        || ci_eq(e, "tiff"@) || ci_eq(e, "heic"@) || ci_eq(e, "avif"@)
}

pub open spec fn is_video_ext(e: Seq<char>) -> bool {
    ci_eq(e, "mp4"@) || ci_eq(e, "mkv"@) || ci_eq(e, "avi"@) || ci_eq(e, "mov"@)
        || ci_eq(e, "webm"@) || ci_eq(e, "wmv"@) || ci_eq(e, "flv"@) || ci_eq(e, "m4v"@)
        || ci_eq(e, "3gp"@)
}

pub open spec fn is_document_ext(e: Seq<char>) -> bool {
    ci_eq(e, "pdf"@) || ci_eq(e, "doc"@) || ci_eq(e, "docx"@) || ci_eq(e, "txt"@)
        || ci_eq(e, "md"@) || ci_eq(e, "rtf"@) || ci_eq(e, "odt"@) || ci_eq(e, "log"@)
        || ci_eq(e, "pages"@)
}

pub open spec fn is_audio_ext(e: Seq<char>) -> bool {
    ci_eq(e, "mp3"@) || ci_eq(e, "wav"@) || ci_eq(e, "flac"@) || ci_eq(e, "ogg"@)
        || ci_eq(e, "m4a"@) || ci_eq(e, "aac"@) || ci_eq(e, "wma"@) || ci_eq(e, "mid"@)
}

pub open spec fn is_archive_ext(e: Seq<char>) -> bool {
    ci_eq(e, "zip"@) || ci_eq(e, "rar"@) || ci_eq(e, "7z"@) || ci_eq(e, "tar"@)
        || ci_eq(e, "gz"@) || ci_eq(e, "bz2"@) || ci_eq(e, "xz"@) || ci_eq(e, "iso"@)
        || ci_eq(e, "dmg"@)
}

pub open spec fn is_executable_ext(e: Seq<char>) -> bool {
    ci_eq(e, "exe"@) || ci_eq(e, "msi"@) || ci_eq(e, "app"@) || ci_eq(e, "deb"@)
        || ci_eq(e, "rpm"@) || ci_eq(e, "bin"@) || ci_eq(e, "sh"@) || ci_eq(e, "bat"@)
}

pub open spec fn is_code_ext(e: Seq<char>) -> bool {
    ci_eq(e, "py"@) || ci_eq(e, "js"@) || ci_eq(e, "ts"@) || ci_eq(e, "rs"@)
        || ci_eq(e, "cpp"@) || ci_eq(e, "c"@) || ci_eq(e, "h"@) || ci_eq(e, "html"@)
        || ci_eq(e, "css"@) || ci_eq(e, "json"@) || ci_eq(e, "xml"@) || ci_eq(e, "yaml"@)
        || ci_eq(e, "yml"@) || ci_eq(e, "go"@) || ci_eq(e, "php"@) || ci_eq(e, "java"@)
        || ci_eq(e, "rb"@) || ci_eq(e, "swfit"@)
}

pub open spec fn is_design_ext(e: Seq<char>) -> bool {
    ci_eq(e, "psd"@) || ci_eq(e, "ai"@) || ci_eq(e, "eps"@) || ci_eq(e, "sketch"@)
        || ci_eq(e, "fig"@) || ci_eq(e, "xd"@) || ci_eq(e, "indd"@) || ci_eq(e, "cdr"@)
}

pub open spec fn is_font_ext(e: Seq<char>) -> bool {
    ci_eq(e, "ttf"@) || ci_eq(e, "otf"@) || ci_eq(e, "woff"@) || ci_eq(e, "woff2"@)
        || ci_eq(e, "eot"@)
}

pub open spec fn is_database_ext(e: Seq<char>) -> bool {
    ci_eq(e, "sqlite"@) || ci_eq(e, "db"@) || ci_eq(e, "sql"@) || ci_eq(e, "mdb"@)
        || ci_eq(e, "accdb"@) || ci_eq(e, "dbf"@)
}

pub open spec fn is_ebook_ext(e: Seq<char>) -> bool {
    ci_eq(e, "epub"@) || ci_eq(e, "mobi"@) || ci_eq(e, "azw3"@) || ci_eq(e, "djvu"@)
        || ci_eq(e, "cbz"@) || ci_eq(e, "cbr"@)
}

pub open spec fn is_model_ext(e: Seq<char>) -> bool {
    ci_eq(e, "obj"@) || ci_eq(e, "stl"@) || ci_eq(e, "fbx"@) || ci_eq(e, "blend"@)
        || ci_eq(e, "3ds"@) || ci_eq(e, "ma"@) || ci_eq(e, "mb"@) || ci_eq(e, "gltf"@)
        || ci_eq(e, "glb"@)
}

pub open spec fn is_config_ext(e: Seq<char>) -> bool {
    ci_eq(e, "cfg"@) || ci_eq(e, "ini"@) || ci_eq(e, "env"@) || ci_eq(e, "conf"@)
        || ci_eq(e, "toml"@) || ci_eq(e, "prop"@)
}

pub open spec fn is_sheet_ext(e: Seq<char>) -> bool {
    ci_eq(e, "xls"@) || ci_eq(e, "xlsx"@) || ci_eq(e, "csv"@) || ci_eq(e, "ods"@)
        || ci_eq(e, "numbers"@)
}

pub open spec fn is_slide_ext(e: Seq<char>) -> bool {
    ci_eq(e, "ppt"@) || ci_eq(e, "pptx"@) || ci_eq(e, "key"@) || ci_eq(e, "odp"@)
}

/// The category label an extension maps to. Total: every extension gets
/// exactly one label, unknown ones the catch-all.
pub open spec fn spec_category(e: Seq<char>) -> Seq<char> {
    if is_image_ext(e) {
        "Imagens"@
    } else if is_video_ext(e) {
        "Vídeos"@
    } else if is_document_ext(e) {
        "Documentos/Logs"@
    } else if is_audio_ext(e) {
        "Áudio"@
    } else if is_archive_ext(e) {
        "Arquivos Compactados"@
    } else if is_executable_ext(e) {
        "Instaladores/Executáveis"@
    } else if is_code_ext(e) {
        "Código"@
    } else if is_design_ext(e) {
        "Design/Vetores"@
    } else if is_font_ext(e) {
        "Fontes"@
    } else if is_database_ext(e) {
        "Bancos de Dados"@
    } else if is_ebook_ext(e) {
        "E-books"@
    } else if is_model_ext(e) {
        "modelos 3D"@
    } else if is_config_ext(e) {
        "Configurações"@
    } else if is_sheet_ext(e) {
        "Planilhas"@
    } else if is_slide_ext(e) {
        "Apresentações"@
    } else {
        "Outros"@
    }
}

fn is_image(e: &str) -> (r: bool)
    ensures
        r == is_image_ext(e@),
{
    chars_ci_eq(e, "jpg") || chars_ci_eq(e, "jpeg") || chars_ci_eq(e, "png") || chars_ci_eq(
        e,
        "gif",
    ) || chars_ci_eq(e, "webp") || chars_ci_eq(e, "bmp") || chars_ci_eq(e, "svg") || chars_ci_eq(
        e,
        "ico",
    ) || chars_ci_eq(e, "tiff") || chars_ci_eq(e, "heic") || chars_ci_eq(e, "avif")
}

fn is_video(e: &str) -> (r: bool)
    ensures
        r == is_video_ext(e@),
{
    chars_ci_eq(e, "mp4") || chars_ci_eq(e, "mkv") || chars_ci_eq(e, "avi") || chars_ci_eq(
        e,
        "mov",
    ) || chars_ci_eq(e, "webm") || chars_ci_eq(e, "wmv") || chars_ci_eq(e, "flv") || chars_ci_eq(
        e,
        "m4v",
    ) || chars_ci_eq(e, "3gp")
}

fn is_document(e: &str) -> (r: bool)
    ensures
        r == is_document_ext(e@),
{
    chars_ci_eq(e, "pdf") || chars_ci_eq(e, "doc") || chars_ci_eq(e, "docx") || chars_ci_eq(
        e,
        "txt",
    ) || chars_ci_eq(e, "md") || chars_ci_eq(e, "rtf") || chars_ci_eq(e, "odt") || chars_ci_eq(
        e,
        "log",
    ) || chars_ci_eq(e, "pages")
}

fn is_audio(e: &str) -> (r: bool)
    ensures
        r == is_audio_ext(e@),
{
    chars_ci_eq(e, "mp3") || chars_ci_eq(e, "wav") || chars_ci_eq(e, "flac") || chars_ci_eq(
        e,
        "ogg",
    ) || chars_ci_eq(e, "m4a") || chars_ci_eq(e, "aac") || chars_ci_eq(e, "wma") || chars_ci_eq(
        e,
        "mid",
    )
}

fn is_archive(e: &str) -> (r: bool)
    ensures
        r == is_archive_ext(e@),
{
    chars_ci_eq(e, "zip") || chars_ci_eq(e, "rar") || chars_ci_eq(e, "7z") || chars_ci_eq(
        e,
        "tar",
    ) || chars_ci_eq(e, "gz") || chars_ci_eq(e, "bz2") || chars_ci_eq(e, "xz") || chars_ci_eq(
        e,
        "iso",
    ) || chars_ci_eq(e, "dmg")
}

fn is_executable(e: &str) -> (r: bool)
    ensures
        r == is_executable_ext(e@),
{
    chars_ci_eq(e, "exe") || chars_ci_eq(e, "msi") || chars_ci_eq(e, "app") || chars_ci_eq(
        e,
        "deb",
    ) || chars_ci_eq(e, "rpm") || chars_ci_eq(e, "bin") || chars_ci_eq(e, "sh") || chars_ci_eq(
        e,
        "bat",
    )
}

fn is_code(e: &str) -> (r: bool)
    ensures
        r == is_code_ext(e@),
{
    chars_ci_eq(e, "py") || chars_ci_eq(e, "js") || chars_ci_eq(e, "ts") || chars_ci_eq(e, "rs")
        || chars_ci_eq(e, "cpp") || chars_ci_eq(e, "c") || chars_ci_eq(e, "h") || chars_ci_eq(
        e,
        "html",
    ) || chars_ci_eq(e, "css") || chars_ci_eq(e, "json") || chars_ci_eq(e, "xml") || chars_ci_eq(
        e,
        "yaml",
    ) || chars_ci_eq(e, "yml") || chars_ci_eq(e, "go") || chars_ci_eq(e, "php") || chars_ci_eq(
        e,
        "java",
    ) || chars_ci_eq(e, "rb") || chars_ci_eq(e, "swfit")
}

fn is_design(e: &str) -> (r: bool)
    ensures
        r == is_design_ext(e@),
{
    chars_ci_eq(e, "psd") || chars_ci_eq(e, "ai") || chars_ci_eq(e, "eps") || chars_ci_eq(
        e,
        "sketch",
    ) || chars_ci_eq(e, "fig") || chars_ci_eq(e, "xd") || chars_ci_eq(e, "indd") || chars_ci_eq(
        e,
        "cdr",
    )
}

fn is_font(e: &str) -> (r: bool)
    ensures
        r == is_font_ext(e@),
{
    chars_ci_eq(e, "ttf") || chars_ci_eq(e, "otf") || chars_ci_eq(e, "woff") || chars_ci_eq(
        e,
        "woff2",
    ) || chars_ci_eq(e, "eot")
}

fn is_database(e: &str) -> (r: bool)
    ensures
        r == is_database_ext(e@),
{
    chars_ci_eq(e, "sqlite") || chars_ci_eq(e, "db") || chars_ci_eq(e, "sql") || chars_ci_eq(
        e,
        "mdb",
    ) || chars_ci_eq(e, "accdb") || chars_ci_eq(e, "dbf")
}

fn is_ebook(e: &str) -> (r: bool)
    ensures
        r == is_ebook_ext(e@),
{
    chars_ci_eq(e, "epub") || chars_ci_eq(e, "mobi") || chars_ci_eq(e, "azw3") || chars_ci_eq(
        e,
        "djvu",
    ) || chars_ci_eq(e, "cbz") || chars_ci_eq(e, "cbr")
}

fn is_model(e: &str) -> (r: bool)
    ensures
        r == is_model_ext(e@),
{
    chars_ci_eq(e, "obj") || chars_ci_eq(e, "stl") || chars_ci_eq(e, "fbx") || chars_ci_eq(
        e,
        "blend",
    ) || chars_ci_eq(e, "3ds") || chars_ci_eq(e, "ma") || chars_ci_eq(e, "mb") || chars_ci_eq(
        e,
        "gltf",
    ) || chars_ci_eq(e, "glb")
}

fn is_config(e: &str) -> (r: bool)
    ensures
        r == is_config_ext(e@),
{
    chars_ci_eq(e, "cfg") || chars_ci_eq(e, "ini") || chars_ci_eq(e, "env") || chars_ci_eq(
        e,
        "conf",
    ) || chars_ci_eq(e, "toml") || chars_ci_eq(e, "prop")
}

fn is_sheet(e: &str) -> (r: bool)
    ensures
        r == is_sheet_ext(e@),
{
    chars_ci_eq(e, "xls") || chars_ci_eq(e, "xlsx") || chars_ci_eq(e, "csv") || chars_ci_eq(
        e,
        "ods",
    ) || chars_ci_eq(e, "numbers")
}

fn is_slide(e: &str) -> (r: bool)
    ensures
        r == is_slide_ext(e@),
{
    chars_ci_eq(e, "ppt") || chars_ci_eq(e, "pptx") || chars_ci_eq(e, "key") || chars_ci_eq(
        e,
        "odp",
    )
}

/// Category label for an extension: a pure, total lookup, case-insensitive
/// in the extension.
pub fn category_for(ext: &str) -> (r: &'static str)
    ensures
        r@ == spec_category(ext@),
{
    if is_image(ext) {
        "Imagens"
    } else if is_video(ext) {
        "Vídeos"
    } else if is_document(ext) {
        "Documentos/Logs"
    } else if is_audio(ext) {
        "Áudio"
    } else if is_archive(ext) {
        "Arquivos Compactados"
    } else if is_executable(ext) {
        "Instaladores/Executáveis"
    } else if is_code(ext) {
        "Código"
    } else if is_design(ext) {
        "Design/Vetores"
    } else if is_font(ext) {
        "Fontes"
    } else if is_database(ext) {
        "Bancos de Dados"
    } else if is_ebook(ext) {
        "E-books"
    } else if is_model(ext) {
        "modelos 3D"
    } else if is_config(ext) {
        "Configurações"
    } else if is_sheet(ext) {
        "Planilhas"
    } else if is_slide(ext) {
        "Apresentações"
    } else {
        "Outros"
    }
}

/// Two extensions that agree up to letter case map to the same label.
pub proof fn lemma_category_case_insensitive(a: Seq<char>, b: Seq<char>)
    requires
        ci_eq(a, b),
    ensures
        spec_category(a) == spec_category(b),
{
}

} // verus!
