use vstd::prelude::*;

verus! {

/// A name that `Path::join` appends as one component: not empty, no path
/// separator or drive colon, and not `.` or `..`.
pub open spec fn is_plain_file_name(name: Seq<char>) -> bool {
    &&& name.len() > 0
    &&& forall|i: int| 0 <= i < name.len() ==> #[trigger] name[i] != '/' && name[i] != '\\' && name[i] != ':'
    &&& name != seq!['.']
    &&& name != seq!['.', '.']
}

/// `base` with `name` appended where paths use `/` alone as separator: a
/// `/` goes between them when `base` is not empty and does not already end
/// with one.
pub open spec fn slash_joined(base: Seq<char>, name: Seq<char>) -> Seq<char> {
    if base.len() > 0 && base.last() != '/' {
        base + seq!['/'] + name
    } else {
        base + name
    }
}

/// A bare drive prefix such as `C:`.
pub open spec fn is_drive_prefix(base: Seq<char>) -> bool {
    &&& base.len() == 2
    &&& base[1] == ':'
    &&& (('a' <= base[0] && base[0] <= 'z') || ('A' <= base[0] && base[0] <= 'Z'))
}

/// A verbatim path, which starts with `\\?\`.
pub open spec fn is_verbatim(base: Seq<char>) -> bool {
    base.len() >= 4 && base.take(4) == seq!['\\', '\\', '?', '\\']
}

/// `base` with `name` appended where paths use `\` and `/` as separators:
/// a `\` goes between them when `base` is not empty, does not already end
/// with a separator and is not a bare drive prefix.
pub open spec fn backslash_joined(base: Seq<char>, name: Seq<char>) -> Seq<char> {
    if base.len() > 0 && base.last() != '/' && base.last() != '\\' && !is_drive_prefix(base) {
        base + seq!['\\'] + name
    } else {
        base + name
    }
}

/// `joined` is `base` with the plain file name `name` appended as its last
/// component, as `PathBuf::push` does on the platform that runs: with `/`
/// added where needed on Unix; with `\` added where needed on Windows; and,
/// for a verbatim base on Windows, which is rebuilt from its components, as a
/// path that ends with `\` and `name`.
pub open spec fn is_joined_path(base: Seq<char>, name: Seq<char>, joined: Seq<char>) -> bool {
    ||| joined == slash_joined(base, name)
    ||| !is_verbatim(base) && joined == backslash_joined(base, name)
    ||| is_verbatim(base) && joined.len() > name.len()
        && joined.subrange(joined.len() - name.len() - 1, joined.len() as int) == seq!['\\'] + name
}

/// `std::path::Path::join` of a plain file name, then `to_string_lossy`,
/// which changes nothing of a path made of two strings. The contract claims
/// what the documentation and source of `PathBuf::push` give for a relative
/// name of one component: on Unix, `/` is added unless `base` is empty or
/// ends with `/`; on Windows, `\` is added unless `base` is empty, ends with
/// `/` or `\`, or is a bare drive such as `C:`; a verbatim base (`\\?\`) is
/// rebuilt from its components, so only the ending `\` and `name` is claimed.
/// Which platform runs is left unsaid.
#[verifier::external_body]
pub(crate) fn path_join(base: &str, name: &str) -> (r: String)
    requires
        is_plain_file_name(name@),
    ensures
        is_joined_path(base@, name@, r@),
{
    std::path::Path::new(base).join(name).to_string_lossy().into_owned()
}

/// The DER copy of the SwagEx certificate authority in `directory`.
pub fn certificate_der_path(directory: &str) -> (r: String)
    ensures
        is_joined_path(directory@, "SwagEx-CA.cer"@, r@),
{
    proof {
        reveal_strlit("SwagEx-CA.cer");
    }
    path_join(directory, "SwagEx-CA.cer")
}

/// The PEM certificate of the SwagEx certificate authority in `directory`.
pub fn certificate_pem_path(directory: &str) -> (r: String)
    ensures
        is_joined_path(directory@, "SwagEx-CA.pem"@, r@),
{
    proof {
        reveal_strlit("SwagEx-CA.pem");
    }
    path_join(directory, "SwagEx-CA.pem")
}

/// The private key of the SwagEx certificate authority in `directory`.
pub fn private_key_path(directory: &str) -> (r: String)
    ensures
        is_joined_path(directory@, "SwagEx-CA.key"@, r@),
{
    proof {
        reveal_strlit("SwagEx-CA.key");
    }
    path_join(directory, "SwagEx-CA.key")
}

/// The directory of the certificate authority, inside the application data.
pub fn certificate_directory(app_data: &str) -> (r: String)
    ensures
        is_joined_path(app_data@, "certificate"@, r@),
{
    proof {
        reveal_strlit("certificate");
    }
    path_join(app_data, "certificate")
}

/// Captured exports stay in the application's private data directory: writing
/// to Downloads would need a permission before the capture is confirmed.
pub fn exports_directory(app_data: &str) -> (r: String)
    ensures
        is_joined_path(app_data@, "exports"@, r@),
{
    proof {
        reveal_strlit("exports");
    }
    path_join(app_data, "exports")
}

/// The settings file inside the application data.
pub fn settings_path(app_data: &str) -> (r: String)
    ensures
        is_joined_path(app_data@, "settings.json"@, r@),
{
    proof {
        reveal_strlit("settings.json");
    }
    path_join(app_data, "settings.json")
}

/// The file that settings are written to before they replace the settings file.
pub fn settings_temporary_path(app_data: &str) -> (r: String)
    ensures
        is_joined_path(app_data@, ".swagex-settings.tmp"@, r@),
{
    proof {
        reveal_strlit(".swagex-settings.tmp");
    }
    path_join(app_data, ".swagex-settings.tmp")
}

} // verus!
