use vstd::prelude::*;

pub mod md_handler;
pub mod partition;
pub mod script;
pub mod tex_handler;
pub mod text;
pub mod unescape;

use crate::md_handler::{script_markdown, ToMarkdown};
use crate::script::Script;
use crate::tex_handler::{
    body_text, containers_of, line_error_is, lines_from, missing_field, script_matches,
    ScriptError, Tex,
};
use crate::text::{chars_eq, chars_of};

verus! {

#[verifier::external_type_specification]
#[verifier::external_body]
pub struct ExPathBuf(std::path::PathBuf);

/// The file formats that this library can process.
#[derive(Clone, Copy, Debug, PartialEq, Eq, Hash, Structural)]
pub enum FileFormat {
    /// A LaTeX (.tex) file
    Tex,
    /// A Markdown (.md) file
    Markdown,
}

pub open spec fn wrong_extension_message() -> Seq<char> {
    "Invalid file extension: should be .tex / .md"@
}

pub open spec fn no_extension_message() -> Seq<char> {
    "Invalid file extension: could not be determined"@
}

/// Relies on `Path::extension`: the extension of the file name, if it has one, with any
/// bytes that are not UTF-8 replaced.
#[verifier::external_body]
fn extension_text(p: &std::path::PathBuf) -> (r: Option<String>) {
    p.extension().map(|e| e.to_string_lossy().into_owned())
}

impl FileFormat {
    /// The format that a file extension names: `tex` or `md`.
    pub fn from_extension(ext: Option<&str>) -> (r: Result<Self, String>)
        ensures
            ext matches Some(e) && e@ == "tex"@ ==> r == Ok::<FileFormat, String>(FileFormat::Tex),
            ext matches Some(e) && e@ == "md"@ ==> r == Ok::<FileFormat, String>(
                FileFormat::Markdown,
            ),
            ext matches Some(e) && e@ != "tex"@ && e@ != "md"@ ==> r is Err && r->Err_0@
                == wrong_extension_message(),
            ext is None ==> r is Err && r->Err_0@ == no_extension_message(),
    {
        proof {
            reveal_strlit("tex");
            reveal_strlit("md");
            assert("tex"@.len() != "md"@.len());
        }
        match ext {
            Some(e) => {
                let c = chars_of(e);
                if chars_eq(&c, &chars_of("tex")) {
                    Ok(FileFormat::Tex)
                } else if chars_eq(&c, &chars_of("md")) {
                    Ok(FileFormat::Markdown)
                } else {
                    Err("Invalid file extension: should be .tex / .md".to_owned())
                }
            },
            None => Err("Invalid file extension: could not be determined".to_owned()),
        }
    }

    /// The format of a file, from the extension of its path (see `from_extension`).
    pub fn from_path(p: &std::path::PathBuf) -> (r: Result<Self, String>)
        ensures
            r is Err ==> r->Err_0@ == wrong_extension_message() || r->Err_0@
                == no_extension_message(),
    {
        match extension_text(p) {
            Some(e) => Self::from_extension(Some(e.as_str())),
            None => Self::from_extension(None),
        }
    }
}

/// Only the conversion from TeX to Markdown is supported.
pub open spec fn supported_conversion(input: FileFormat, output: FileFormat) -> bool {
    input == FileFormat::Tex && output == FileFormat::Markdown
}

/// Whether a conversion between the two formats is supported: only TeX to Markdown is.
#[verifier::when_used_as_spec(supported_conversion)]
pub fn conversion_supported(input: FileFormat, output: FileFormat) -> (r: bool)
    ensures
        r == supported_conversion(input, output),
{
    input == FileFormat::Tex && output == FileFormat::Markdown
}

/// Converts the text of a script from one format to another. Only TeX to Markdown is
/// supported: the script is read and rendered.
pub fn convert(input: FileFormat, output: FileFormat, text: &str) -> (r: Result<
    String,
    ScriptError,
>)
    ensures
        !supported_conversion(input, output) ==> r == Err::<String, ScriptError>(
            ScriptError::UnsupportedConversion,
        ),
        supported_conversion(input, output) ==> (r is Ok <==> Script::try_from_ok(text@)),
        r is Ok ==> exists|sc: Script|
            script_matches(sc, text@) && r->Ok_0@ == #[trigger] script_markdown(sc),
        supported_conversion(input, output) ==> (missing_field(text@) matches Some(f) ==> r matches Err(
            ScriptError::MissingField(g),
        ) && g@ == f),
        supported_conversion(input, output) && missing_field(text@) is None && r is Err
            ==> line_error_is(
            r->Err_0,
            containers_of(lines_from(body_text(text@), 0))->Err_0.0,
            containers_of(lines_from(body_text(text@), 0))->Err_0.1,
        ),
{
    if !conversion_supported(input, output) {
        return Err(ScriptError::UnsupportedConversion);
    }
    let tex = Tex::from(text);
    match Script::try_from(&tex) {
        Ok(sc) => {
            let md = sc.to_markdown();
            Ok(md)
        },
        Err(e) => Err(e),
    }
}

} // verus!
