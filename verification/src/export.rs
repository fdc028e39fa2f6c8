use vstd::prelude::*;

use crate::canonical::{canonical_profile, canonicalize_profile};
use crate::json::{Json, JsonModel, as_i64, get};
use crate::paths::{is_joined_path, is_plain_file_name, path_join};
use crate::protocol::{ProfileError, profile_verdict, validate_profile};
use crate::text::{
    chars_of, cleaned_filename, decimal, is_forbidden_in_filename, lemma_cleaned_filename_chars,
    lemma_decimal_digits, push_all, push_str, sanitize_filename_or, sanitized_filename,
    signed_decimal, signed_decimal_chars, string_from_chars, trim, trim_chars,
};

verus! {

broadcast use vstd::std_specs::vec::group_vec_axioms;

/// A profile export: the file written and the name shown for it.
pub struct ExportedProfile {
    pub path: String,
    pub display_name: String,
}

/// What exporting a profile writes: the document, first to a temporary file
/// that then replaces the final one.
pub struct ProfileExport {
    pub exported: ExportedProfile,
    pub temporary_path: String,
    pub document: Json,
}

/// The account name: `wizard_info.wizard_name` trimmed, or `Compte` when it
/// is missing or blank. A trailing `~` is part of some names and is kept.
pub open spec fn account_name(profile: JsonModel) -> Seq<char> {
    match get(profile, "wizard_info"@) {
        Some(info) => match get(info, "wizard_name"@) {
            Some(JsonModel::Str(name)) => if trim(name).len() > 0 {
                trim(name)
            } else {
                "Compte"@
            },
            _ => "Compte"@,
        },
        None => "Compte"@,
    }
}

/// The account id: `wizard_info.wizard_id`, else the profile's own `wizard_id`.
pub open spec fn wizard_id(profile: JsonModel) -> Option<i64> {
    let inner = match get(profile, "wizard_info"@) {
        Some(info) => match get(info, "wizard_id"@) {
            Some(v) => as_i64(v),
            None => None,
        },
        None => None,
    };
    if inner is Some {
        inner
    } else {
        match get(profile, "wizard_id"@) {
            Some(v) => as_i64(v),
            None => None,
        }
    }
}

/// The account id in decimal, or `profil` when there is none.
pub open spec fn wizard_id_text(profile: JsonModel) -> Seq<char> {
    match wizard_id(profile) {
        Some(id) => signed_decimal(id as int),
        None => "profil"@,
    }
}

/// The name shown for an export: account name, `-`, account id.
pub open spec fn profile_display_name(profile: JsonModel) -> Seq<char> {
    account_name(profile) + seq!['-'] + wizard_id_text(profile)
}

/// The export's file name.
pub open spec fn profile_file_name(profile: JsonModel) -> Seq<char> {
    sanitized_filename(profile_display_name(profile), "Compte-profil"@) + ".json"@
}

/// The temporary file that the export is first written to.
pub open spec fn profile_temporary_name(profile: JsonModel) -> Seq<char> {
    ".swagex-"@ + wizard_id_text(profile) + ".tmp"@
}

fn account_name_of(profile: &Json) -> (r: String)
    ensures
        r@ == account_name(profile@),
{
    match profile.get("wizard_info") {
        Some(info) => match info.get("wizard_name") {
            Some(v) => match v.as_str() {
                Some(name) => {
                    let trimmed = trim_chars(&chars_of(name));
                    if trimmed.len() > 0 {
                        string_from_chars(&trimmed)
                    } else {
                        String::from_str("Compte")
                    }
                },
                None => String::from_str("Compte"),
            },
            None => String::from_str("Compte"),
        },
        None => String::from_str("Compte"),
    }
}

fn wizard_id_of(profile: &Json) -> (r: Option<i64>)
    ensures
        r == wizard_id(profile@),
{
    let inner = match profile.get("wizard_info") {
        Some(info) => match info.get("wizard_id") {
            Some(v) => v.as_i64(),
            None => None,
        },
        None => None,
    };
    if inner.is_some() {
        inner
    } else {
        match profile.get("wizard_id") {
            Some(v) => v.as_i64(),
            None => None,
        }
    }
}

fn wizard_id_text_of(profile: &Json) -> (r: Vec<char>)
    ensures
        r@ == wizard_id_text(profile@),
{
    match wizard_id_of(profile) {
        Some(id) => signed_decimal_chars(id),
        None => chars_of("profil"),
    }
}

proof fn lemma_id_text_plain(profile: JsonModel)
    ensures
        forall|i: int|
            0 <= i < wizard_id_text(profile).len() ==> #[trigger] wizard_id_text(profile)[i] != '/'
                && wizard_id_text(profile)[i] != '\\' && wizard_id_text(profile)[i] != ':',
{
    reveal_strlit("profil");
    match wizard_id(profile) {
        Some(id) => {
            let n: int = id as int;
            if n < 0 {
                lemma_decimal_digits((-n) as nat);
                assert forall|i: int| 0 <= i < wizard_id_text(profile).len() implies #[trigger] wizard_id_text(profile)[i] != '/'
                    && wizard_id_text(profile)[i] != '\\' && wizard_id_text(profile)[i] != ':' by {
                    if i > 0 {
                        assert(wizard_id_text(profile)[i] == decimal((-n) as nat)[i - 1]);
                        let c = decimal((-n) as nat)[i - 1];
                        assert(48 <= (c as u32) <= 57);
                    }
                }
            } else {
                lemma_decimal_digits(n as nat);
                assert forall|i: int| 0 <= i < wizard_id_text(profile).len() implies #[trigger] wizard_id_text(profile)[i] != '/'
                    && wizard_id_text(profile)[i] != '\\' && wizard_id_text(profile)[i] != ':' by {
                    let c = decimal(n as nat)[i];
                    assert(48 <= (c as u32) <= 57);
                }
            }
        },
        None => {},
    }
}

/// Plans the export of a captured profile to `output_directory`: the profile
/// must be a login profile; the document is a canonical copy of it, the
/// captured value itself is left as it is.
pub fn plan_profile_export(profile: &Json, output_directory: &str) -> (r: Result<ProfileExport, ProfileError>)
    ensures
        match r {
            Ok(plan) => {
                &&& profile_verdict(profile@) is Ok
                &&& plan.exported.display_name@ == profile_display_name(profile@)
                &&& is_joined_path(output_directory@, profile_file_name(profile@), plan.exported.path@)
                &&& is_joined_path(output_directory@, profile_temporary_name(profile@), plan.temporary_path@)
                &&& plan.document@ == canonical_profile(profile@)
            },
            Err(e) => profile_verdict(profile@) == Err::<(), ProfileError>(e),
        },
{
    match validate_profile(profile) {
        Ok(()) => {},
        Err(e) => return Err(e),
    }
    let account = account_name_of(profile);
    let id_text = wizard_id_text_of(profile);
    let mut display = chars_of(account.as_str());
    display.push('-');
    push_all(&mut display, &id_text);
    let display_name = string_from_chars(&display);
    let safe = sanitize_filename_or(display_name.as_str(), "Compte-profil");
    let mut file = chars_of(safe.as_str());
    push_str(&mut file, ".json");
    let file_name = string_from_chars(&file);
    let mut temp = chars_of(".swagex-");
    push_all(&mut temp, &id_text);
    push_str(&mut temp, ".tmp");
    let temp_name = string_from_chars(&temp);
    assert(display_name@ =~= profile_display_name(profile@));
    assert(file_name@ =~= profile_file_name(profile@));
    assert(temp_name@ =~= profile_temporary_name(profile@));
    proof {
        reveal_strlit(".json");
        reveal_strlit(".swagex-");
        reveal_strlit(".tmp");
        reveal_strlit("Compte-profil");
        let d = profile_display_name(profile@);
        lemma_cleaned_filename_chars(d);
        let s = sanitized_filename(d, "Compte-profil"@);
        assert forall|i: int| 0 <= i < s.len() implies #[trigger] s[i] != '/' && s[i] != '\\' && s[i] != ':' by {
            if cleaned_filename(d).len() > 0 {
                assert(!is_forbidden_in_filename(cleaned_filename(d)[i]));
            }
        }
        let f = profile_file_name(profile@);
        assert(f.len() >= 5);
        assert forall|i: int| 0 <= i < f.len() implies #[trigger] f[i] != '/' && f[i] != '\\' && f[i] != ':' by {
            if i < s.len() {
                assert(f[i] == s[i]);
            }
        }
        assert(f != seq!['.']);
        assert(f != seq!['.', '.']);
        lemma_id_text_plain(profile@);
        let t = profile_temporary_name(profile@);
        let idt = wizard_id_text(profile@);
        assert forall|i: int| 0 <= i < t.len() implies #[trigger] t[i] != '/' && t[i] != '\\' && t[i] != ':' by {
            if 8 <= i < 8 + idt.len() {
                assert(t[i] == idt[i - 8]);
            }
        }
        assert(t.len() >= 12);
        assert(t != seq!['.']);
        assert(t != seq!['.', '.']);
        assert(is_plain_file_name(f));
        assert(is_plain_file_name(t));
    }
    let final_path = path_join(output_directory, file_name.as_str());
    let temporary_path = path_join(output_directory, temp_name.as_str());
    let mut document = profile.duplicate();
    canonicalize_profile(&mut document);
    Ok(ProfileExport {
        exported: ExportedProfile { path: final_path, display_name },
        temporary_path,
        document,
    })
}

/// `sanitize_filename` for profile exports: the fallback name is `Compte-profil`.
pub fn sanitize_filename(value: &str) -> (r: String)
    ensures
        r@ == sanitized_filename(value@, "Compte-profil"@),
{
    sanitize_filename_or(value, "Compte-profil")
}

/// The export to reveal in the platform's file manager: an empty path is
/// refused before any file manager is launched.
pub fn export_path_to_reveal(path: String) -> (r: Result<String, String>)
    ensures
        match r {
            Ok(p) => path@.len() > 0 && p@ == path@,
            Err(message) => path@.len() == 0 && message@ == "Le chemin de l’export est introuvable"@,
        },
{
    if path.as_str().is_empty() {
        return Err(String::from_str("Le chemin de l’export est introuvable"));
    }
    Ok(path)
}

} // verus!
