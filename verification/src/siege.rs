use vstd::prelude::*;

use crate::json::{
    Json, JsonEntry, JsonModel, get, has_key, key_position, lemma_first_key_unique, lemma_key_position,
    lemma_object_model, entries_model, number_field,
};
use crate::paths::{is_joined_path, is_plain_file_name, path_join};
use crate::text::{
    chars_of, cleaned_filename, digit_char, is_forbidden_in_filename, lemma_cleaned_filename_chars,
    push_str, sanitize_filename_or, sanitized_filename, string_from_chars,
};

verus! {

broadcast use vstd::std_specs::vec::group_vec_axioms;

/// Which of the three guild siege responses have been captured.
#[derive(Debug, Clone, Copy, PartialEq, Eq)]
pub struct SiegeProgress {
    pub matchup_captured: bool,
    pub attack_log_captured: bool,
    pub defense_log_captured: bool,
}

impl Default for SiegeProgress {
    fn default() -> (r: SiegeProgress)
        ensures
            !r.matchup_captured && !r.attack_log_captured && !r.defense_log_captured,
    {
        SiegeProgress { matchup_captured: false, attack_log_captured: false, defense_log_captured: false }
    }
}

impl SiegeProgress {
    /// All three responses are there.
    pub fn is_complete(self) -> (r: bool)
        ensures
            r == (self.matchup_captured && self.attack_log_captured && self.defense_log_captured),
    {
        self.matchup_captured && self.attack_log_captured && self.defense_log_captured
    }
}

/// A guild siege export: the file written and the name shown for it.
pub struct ExportedSiege {
    pub path: String,
    pub display_name: String,
}

/// What exporting a siege writes: the document, first to a temporary file
/// that then replaces the final one.
pub struct SiegeExport {
    pub exported: ExportedSiege,
    pub temporary_path: String,
    pub document: Json,
}

/// The guild siege responses captured so far, and whether they were exported.
pub struct SiegeCapture {
    matchup_info: Option<Json>,
    attack_log: Option<Json>,
    defense_log: Option<Json>,
    exported: bool,
}

pub open spec fn option_model(o: Option<Json>) -> Option<JsonModel> {
    match o {
        Some(j) => Some(j@),
        None => None,
    }
}

/// A response's `ret_code` is missing or zero.
pub open spec fn ret_code_successful(response: JsonModel) -> bool {
    match number_field(response, "ret_code"@) {
        Some(code) => code == 0,
        None => true,
    }
}

/// The command a response answers.
pub open spec fn command_of(response: JsonModel) -> Option<Seq<char>> {
    match get(response, "command"@) {
        Some(JsonModel::Str(c)) => Some(c),
        _ => None,
    }
}

/// The response is the matchup of a siege.
pub open spec fn is_matchup(response: JsonModel) -> bool {
    command_of(response) == Some("GetGuildSiegeMatchupInfo"@) && ret_code_successful(response)
}

/// The response is a siege battle log of the given type (1: attack, 2: defense).
pub open spec fn is_battle_log(response: JsonModel, log_type: i64) -> bool {
    command_of(response) == Some("GetGuildSiegeBattleLog"@) && number_field(response, "log_type"@)
        == Some(log_type)
}

impl SiegeCapture {
    pub closed spec fn matchup(&self) -> Option<JsonModel> {
        option_model(self.matchup_info)
    }

    pub closed spec fn attack(&self) -> Option<JsonModel> {
        option_model(self.attack_log)
    }

    pub closed spec fn defense(&self) -> Option<JsonModel> {
        option_model(self.defense_log)
    }

    pub closed spec fn was_exported(&self) -> bool {
        self.exported
    }

    /// Nothing captured yet.
    pub fn new() -> (r: SiegeCapture)
        ensures
            r.matchup() is None && r.attack() is None && r.defense() is None && !r.was_exported(),
    {
        SiegeCapture { matchup_info: None, attack_log: None, defense_log: None, exported: false }
    }

    /// Which responses have been captured.
    pub fn progress(&self) -> (p: SiegeProgress)
        ensures
            p.matchup_captured == self.matchup() is Some,
            p.attack_log_captured == self.attack() is Some,
            p.defense_log_captured == self.defense() is Some,
    {
        SiegeProgress {
            matchup_captured: self.matchup_info.is_some(),
            attack_log_captured: self.attack_log.is_some(),
            defense_log_captured: self.defense_log.is_some(),
        }
    }

    /// Keeps a response if it is one of the three that a siege export needs
    /// (the latest of each kind), and reports the progress.
    pub fn observe(&mut self, response: &Json) -> (p: SiegeProgress)
        ensures
            final(self).matchup() == (if is_matchup(response@) {
                Some(response@)
            } else {
                old(self).matchup()
            }),
            final(self).attack() == (if is_battle_log(response@, 1) {
                Some(response@)
            } else {
                old(self).attack()
            }),
            final(self).defense() == (if is_battle_log(response@, 2) {
                Some(response@)
            } else {
                old(self).defense()
            }),
            final(self).was_exported() == old(self).was_exported(),
            p.matchup_captured == final(self).matchup() is Some,
            p.attack_log_captured == final(self).attack() is Some,
            p.defense_log_captured == final(self).defense() is Some,
    {
        proof {
            reveal_strlit("GetGuildSiegeMatchupInfo");
            reveal_strlit("GetGuildSiegeBattleLog");
        }
        let command = match response.get("command") {
            Some(v) => match v.as_str() {
                Some(c) => Some(chars_of(c)),
                None => None,
            },
            None => None,
        };
        assert(match command {
            Some(c) => command_of(response@) == Some(c@),
            None => command_of(response@) is None,
        });
        assert("GetGuildSiegeMatchupInfo"@.len() != "GetGuildSiegeBattleLog"@.len());
        match command {
            Some(c) => {
                let matchup = chars_of("GetGuildSiegeMatchupInfo");
                let battle = chars_of("GetGuildSiegeBattleLog");
                if crate::text::chars_eq(&c, &matchup) {
                    let ok = match response.number_field("ret_code") {
                        Some(code) => code == 0,
                        None => true,
                    };
                    if ok {
                        self.matchup_info = Some(response.duplicate());
                    }
                    assert(!is_battle_log(response@, 1));
                    assert(!is_battle_log(response@, 2));
                } else if crate::text::chars_eq(&c, &battle) {
                    match response.number_field("log_type") {
                        Some(1) => {
                            self.attack_log = Some(response.duplicate());
                        },
                        Some(2) => {
                            self.defense_log = Some(response.duplicate());
                        },
                        _ => {},
                    }
                }
            },
            None => {},
        }
        self.progress()
    }

    /// Records that the export has been written: no second export follows.
    pub fn mark_exported(&mut self)
        ensures
            final(self).was_exported(),
            final(self).matchup() == old(self).matchup(),
            final(self).attack() == old(self).attack(),
            final(self).defense() == old(self).defense(),
    {
        self.exported = true;
    }

    /// What exporting now writes, on the capture date `year`-`month`-`day`:
    /// nothing once exported or while a response is missing.
    pub fn plan_export(&self, year: i32, month: u32, day: u32, output_directory: &str) -> (r: Option<SiegeExport>)
        requires
            is_calendar_date(year as int, month as int, day as int),
        ensures
            match r {
                None => self.was_exported() || self.matchup() is None || self.attack() is None
                    || self.defense() is None,
                Some(plan) => {
                    &&& !self.was_exported()
                    &&& self.matchup() is Some && self.attack() is Some && self.defense() is Some
                    &&& plan.exported.display_name@ == siege_name(year as int, month as int, day as int)
                    &&& is_joined_path(
                        output_directory@,
                        sanitized_filename(plan.exported.display_name@, "SiegeMatch"@) + ".json"@,
                        plan.exported.path@,
                    )
                    &&& is_joined_path(
                        output_directory@,
                        ".swagex-"@ + sanitized_filename(plan.exported.display_name@, "SiegeMatch"@) + ".tmp"@,
                        plan.temporary_path@,
                    )
                    &&& plan.document@ == siege_document(
                        self.matchup().unwrap(),
                        self.attack().unwrap(),
                        self.defense().unwrap(),
                    )
                    &&& get(plan.document@, "matchup_info"@) == self.matchup()
                    &&& get(plan.document@, "attack_log"@) == self.attack()
                    &&& get(plan.document@, "defense_log"@) == self.defense()
                },
            },
    {
        if self.exported {
            return None;
        }
        let (m, a, d) = match (&self.matchup_info, &self.attack_log, &self.defense_log) {
            (Some(m), Some(a), Some(d)) => (m, a, d),
            _ => return None,
        };
        let display_name = siege_display_name(year, month, day);
        let safe = sanitize_filename_or(display_name.as_str(), "SiegeMatch");
        let mut file = chars_of(safe.as_str());
        push_str(&mut file, ".json");
        let file_name = string_from_chars(&file);
        let mut temp = chars_of(".swagex-");
        let safe_chars = chars_of(safe.as_str());
        crate::text::push_all(&mut temp, &safe_chars);
        push_str(&mut temp, ".tmp");
        let temp_name = string_from_chars(&temp);
        proof {
            reveal_strlit(".json");
            reveal_strlit(".swagex-");
            reveal_strlit(".tmp");
            reveal_strlit("SiegeMatch");
            let dn = display_name@;
            lemma_cleaned_filename_chars(dn);
            let s = sanitized_filename(dn, "SiegeMatch"@);
            assert forall|i: int| 0 <= i < s.len() implies #[trigger] s[i] != '/' && s[i] != '\\' && s[i] != ':' by {
                if cleaned_filename(dn).len() > 0 {
                    assert(!is_forbidden_in_filename(cleaned_filename(dn)[i]));
                }
            }
            let f = file_name@;
            assert(f =~= s + ".json"@);
            assert forall|i: int| 0 <= i < f.len() implies #[trigger] f[i] != '/' && f[i] != '\\' && f[i] != ':' by {
                if i < s.len() {
                    assert(f[i] == s[i]);
                }
            }
            assert(f.len() >= 5);
            assert(f != seq!['.']);
            assert(f != seq!['.', '.']);
            let t = temp_name@;
            assert(t =~= ".swagex-"@ + s + ".tmp"@);
            assert forall|i: int| 0 <= i < t.len() implies #[trigger] t[i] != '/' && t[i] != '\\' && t[i] != ':' by {
                if 8 <= i < 8 + s.len() {
                    assert(t[i] == s[i - 8]);
                }
            }
            assert(t.len() >= 12);
            assert(t != seq!['.']);
            assert(t != seq!['.', '.']);
            assert(is_plain_file_name(f));
            assert(is_plain_file_name(t));
        }
        let path = path_join(output_directory, file_name.as_str());
        let temporary_path = path_join(output_directory, temp_name.as_str());
        let mut entries: Vec<JsonEntry> = Vec::new();
        entries.push(JsonEntry { key: String::from_str("matchup_info"), value: m.duplicate() });
        entries.push(JsonEntry { key: String::from_str("attack_log"), value: a.duplicate() });
        entries.push(JsonEntry { key: String::from_str("defense_log"), value: d.duplicate() });
        proof {
            lemma_object_model(entries);
            assert(entries_model(entries@) =~= seq![
                ("matchup_info"@, m@),
                ("attack_log"@, a@),
                ("defense_log"@, d@),
            ]);
            lemma_siege_document_members(m@, a@, d@);
        }
        Some(SiegeExport {
            exported: ExportedSiege { path, display_name },
            temporary_path,
            document: Json::Object(entries),
        })
    }
}

impl Default for SiegeCapture {
    fn default() -> (r: SiegeCapture)
        ensures
            r.matchup() is None && r.attack() is None && r.defense() is None && !r.was_exported(),
    {
        SiegeCapture::new()
    }
}

/// The siege export document: the three responses under their names.
pub open spec fn siege_document(matchup: JsonModel, attack: JsonModel, defense: JsonModel) -> JsonModel {
    JsonModel::Object(
        seq![("matchup_info"@, matchup), ("attack_log"@, attack), ("defense_log"@, defense)],
    )
}

/// Leap years of the proleptic Gregorian calendar.
pub open spec fn is_leap_year(year: int) -> bool {
    (year % 4 == 0 && year % 100 != 0) || year % 400 == 0
}

pub open spec fn days_in_month(year: int, month: int) -> int {
    if month == 2 {
        if is_leap_year(year) {
            29
        } else {
            28
        }
    } else if month == 4 || month == 6 || month == 9 || month == 11 {
        30
    } else {
        31
    }
}

/// A date that `chrono::NaiveDate::from_ymd_opt` accepts: a day of the
/// proleptic Gregorian calendar within the years that `NaiveDate` covers.
pub open spec fn is_calendar_date(year: int, month: int, day: int) -> bool {
    &&& -262143 <= year <= 262142
    &&& 1 <= month <= 12
    &&& 1 <= day <= days_in_month(year, month)
}

/// `v` on two digits, zero-padded.
pub open spec fn two_digits(v: int) -> Seq<char> {
    seq![digit_char((v / 10) as nat), digit_char((v % 10) as nat)]
}

/// `date.format("%d%m%y")`: day, month and the year's last two digits.
pub open spec fn day_month_year(year: int, month: int, day: int) -> Seq<char> {
    two_digits(day) + two_digits(month) + two_digits(year % 100)
}

/// `siege-` and the capture date as day, month, two-digit year.
pub open spec fn siege_name(year: int, month: int, day: int) -> Seq<char> {
    "siege-"@ + day_month_year(year, month, day)
}

/// `chrono::NaiveDate::from_ymd_opt(year, month, day)` formatted with
/// `"%d%m%y"`. The contract claims what chrono's documentation of these
/// specifiers says: the day and month zero-padded on two digits, then the
/// year modulo 100 (Euclidean, as chrono computes it) on two digits.
#[verifier::external_body]
fn format_day_month_year(year: i32, month: u32, day: u32) -> (r: String)
    requires
        is_calendar_date(year as int, month as int, day as int),
    ensures
        r@ == day_month_year(year as int, month as int, day as int),
{
    chrono::NaiveDate::from_ymd_opt(year, month, day).unwrap().format("%d%m%y").to_string()
}

/// The name of a siege export captured on `year`-`month`-`day`.
pub fn siege_display_name(year: i32, month: u32, day: u32) -> (r: String)
    requires
        is_calendar_date(year as int, month as int, day as int),
    ensures
        r@ == siege_name(year as int, month as int, day as int),
{
    let date = format_day_month_year(year, month, day);
    let mut name = chars_of("siege-");
    push_str(&mut name, date.as_str());
    string_from_chars(&name)
}

/// `sanitize_filename` for siege exports: the fallback name is `SiegeMatch`.
pub fn sanitize_filename(value: &str) -> (r: String)
    ensures
        r@ == sanitized_filename(value@, "SiegeMatch"@),
{
    sanitize_filename_or(value, "SiegeMatch")
}

/// Reads the member `key` at position `i` of a three-member object whose
/// first `i` members are named otherwise.
proof fn lemma_get_third(entries: Seq<(Seq<char>, JsonModel)>, key: Seq<char>, i: int)
    requires
        0 <= i < entries.len(),
        entries[i].0 == key,
        forall|j: int| 0 <= j < i ==> entries[j].0 != key,
    ensures
        get(JsonModel::Object(entries), key) == Some(entries[i].1),
{
    assert(has_key(entries, key));
    lemma_key_position(entries, key);
    lemma_first_key_unique(entries, key, i, key_position(entries, key));
}

/// The siege document files the matchup under `matchup_info`, the attack
/// battle log under `attack_log` and the defense battle log under
/// `defense_log`.
pub proof fn lemma_siege_document_members(matchup: JsonModel, attack: JsonModel, defense: JsonModel)
    ensures
        get(siege_document(matchup, attack, defense), "matchup_info"@) == Some(matchup),
        get(siege_document(matchup, attack, defense), "attack_log"@) == Some(attack),
        get(siege_document(matchup, attack, defense), "defense_log"@) == Some(defense),
{
    reveal_strlit("matchup_info");
    reveal_strlit("attack_log");
    reveal_strlit("defense_log");
    let doc = siege_document(matchup, attack, defense);
    if let JsonModel::Object(entries) = doc {
        assert(entries[0].0 == "matchup_info"@);
        assert(entries[1].0 == "attack_log"@);
        assert(entries[2].0 == "defense_log"@);
        assert("matchup_info"@ != "attack_log"@) by {
            assert("matchup_info"@[0] != "attack_log"@[0]);
        }
        assert("matchup_info"@ != "defense_log"@) by {
            assert("matchup_info"@[0] != "defense_log"@[0]);
        }
        assert("attack_log"@ != "defense_log"@) by {
            assert("attack_log"@[0] != "defense_log"@[0]);
        }
        lemma_get_third(entries, "matchup_info"@, 0);
        lemma_get_third(entries, "attack_log"@, 1);
        lemma_get_third(entries, "defense_log"@, 2);
    }
}

} // verus!
