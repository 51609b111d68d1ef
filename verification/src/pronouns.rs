//! Pronoun sets: how a user wants to be spoken of, the texts that show a
//! set, and the table from which example sentences are filled in.

use vstd::prelude::*;
use vstd::string::{StrSliceExecFns, StringExecFns};

use crate::codec::{
    decode_at, lemma_parse_at_encodable, lemma_parse_at_of_wire, lemma_parse_at_within,
    lemma_regroup, parse_at, Decode, DecodeError, Encode, Parsed, RoundTrip,
};

verus! {

/// A set of pronouns.
#[derive(Debug, Clone, PartialEq, Eq)]
pub struct Pronouns {
    /// Whether the forms are to be written exactly as they stand here.
    pub case_sensitive: bool,
    /// Whether verbs take their plural form with the subject.
    pub plural: bool,
    /// Ex. he, she, they, fae.
    pub subject: String,
    /// Ex. him, her, them, faer.
    pub object: String,
    /// Ex. his, her, their, faer.
    pub possessive: String,
    /// Ex. his, hers, theirs, faers.
    pub possessive_pronoun: String,
    /// Ex. himself, herself, themself, faerself.
    pub reflexive: String,
}

/// The model of a set of pronouns: its fields as mathematical values.
pub struct PronounsView {
    pub case_sensitive: bool,
    pub plural: bool,
    pub subject: Seq<char>,
    pub object: Seq<char>,
    pub possessive: Seq<char>,
    pub possessive_pronoun: Seq<char>,
    pub reflexive: Seq<char>,
}

impl View for Pronouns {
    type V = PronounsView;

    open spec fn view(&self) -> PronounsView {
        PronounsView {
            case_sensitive: self.case_sensitive.deep_view(),
            plural: self.plural.deep_view(),
            subject: self.subject.deep_view(),
            object: self.object.deep_view(),
            possessive: self.possessive.deep_view(),
            possessive_pronoun: self.possessive_pronoun.deep_view(),
            reflexive: self.reflexive.deep_view(),
        }
    }
}

impl DeepView for Pronouns {
    type V = PronounsView;

    open spec fn deep_view(&self) -> PronounsView {
        PronounsView {
            case_sensitive: self.case_sensitive.deep_view(),
            plural: self.plural.deep_view(),
            subject: self.subject.deep_view(),
            object: self.object.deep_view(),
            possessive: self.possessive.deep_view(),
            possessive_pronoun: self.possessive_pronoun.deep_view(),
            reflexive: self.reflexive.deep_view(),
        }
    }
}

impl Encode for Pronouns {
    /// Every field has to be encodable.
    open spec fn encodable(v: PronounsView) -> bool {
        &&& <bool as Encode>::encodable(v.case_sensitive)
        &&& <bool as Encode>::encodable(v.plural)
        &&& <String as Encode>::encodable(v.subject)
        &&& <String as Encode>::encodable(v.object)
        &&& <String as Encode>::encodable(v.possessive)
        &&& <String as Encode>::encodable(v.possessive_pronoun)
        &&& <String as Encode>::encodable(v.reflexive)
    }

    /// The bytes of the fields, in the order of their declaration.
    open spec fn wire(v: PronounsView) -> Seq<u8> {
        <bool as Encode>::wire(v.case_sensitive)
            + <bool as Encode>::wire(v.plural)
            + <String as Encode>::wire(v.subject)
            + <String as Encode>::wire(v.object)
            + <String as Encode>::wire(v.possessive)
            + <String as Encode>::wire(v.possessive_pronoun)
            + <String as Encode>::wire(v.reflexive)
    }

    fn encode(&self, writer: &mut Vec<u8>) {
        self.case_sensitive.encode(writer);
        self.plural.encode(writer);
        self.subject.encode(writer);
        self.object.encode(writer);
        self.possessive.encode(writer);
        self.possessive_pronoun.encode(writer);
        self.reflexive.encode(writer);
        assert(writer@ =~= old(writer)@ + Self::wire(self.deep_view()));
    }
}

impl Decode for Pronouns {
    /// The fields, each read behind the one before it.
    open spec fn parse(bytes: Seq<u8>) -> Parsed<PronounsView> {
        match parse_at::<bool>(bytes, 0) {
            Err(e) => Err(e),
            Ok((case_sensitive, at_0)) => match parse_at::<bool>(bytes, at_0) {
                Err(e) => Err(e),
                Ok((plural, at_1)) => match parse_at::<String>(bytes, at_1) {
                    Err(e) => Err(e),
                    Ok((subject, at_2)) => match parse_at::<String>(bytes, at_2) {
                        Err(e) => Err(e),
                        Ok((object, at_3)) => match parse_at::<String>(bytes, at_3) {
                            Err(e) => Err(e),
                            Ok((possessive, at_4)) => match parse_at::<String>(bytes, at_4) {
                                Err(e) => Err(e),
                                Ok((possessive_pronoun, at_5)) => match parse_at::<String>(bytes, at_5) {
                                    Err(e) => Err(e),
                                    Ok((reflexive, at_6)) => Ok((PronounsView { case_sensitive, plural, subject, object, possessive, possessive_pronoun, reflexive }, at_6)),
                                },
                            },
                        },
                    },
                },
            },
        }
    }

    proof fn lemma_parse_within(bytes: Seq<u8>) {
        lemma_parse_at_within::<bool>(bytes, 0);
        if let Ok((case_sensitive, at_0)) = parse_at::<bool>(bytes, 0) {
            lemma_parse_at_within::<bool>(bytes, at_0);
            if let Ok((plural, at_1)) = parse_at::<bool>(bytes, at_0) {
                lemma_parse_at_within::<String>(bytes, at_1);
                if let Ok((subject, at_2)) = parse_at::<String>(bytes, at_1) {
                    lemma_parse_at_within::<String>(bytes, at_2);
                    if let Ok((object, at_3)) = parse_at::<String>(bytes, at_2) {
                        lemma_parse_at_within::<String>(bytes, at_3);
                        if let Ok((possessive, at_4)) = parse_at::<String>(bytes, at_3) {
                            lemma_parse_at_within::<String>(bytes, at_4);
                            if let Ok((possessive_pronoun, at_5)) = parse_at::<String>(bytes, at_4) {
                                lemma_parse_at_within::<String>(bytes, at_5);
                            }
                        }
                    }
                }
            }
        }
    }

    fn decode(reader: &mut &[u8]) -> (r: Result<Self, DecodeError>) {
        let ghost bytes = reader@;
        let ghost at: nat = 0;
        assert(bytes.skip(0) =~= bytes);
        let case_sensitive = decode_at::<bool>(reader, Ghost(bytes), Ghost(at))?;
        let ghost at = parse_at::<bool>(bytes, at)->Ok_0.1;
        let plural = decode_at::<bool>(reader, Ghost(bytes), Ghost(at))?;
        let ghost at = parse_at::<bool>(bytes, at)->Ok_0.1;
        let subject = decode_at::<String>(reader, Ghost(bytes), Ghost(at))?;
        let ghost at = parse_at::<String>(bytes, at)->Ok_0.1;
        let object = decode_at::<String>(reader, Ghost(bytes), Ghost(at))?;
        let ghost at = parse_at::<String>(bytes, at)->Ok_0.1;
        let possessive = decode_at::<String>(reader, Ghost(bytes), Ghost(at))?;
        let ghost at = parse_at::<String>(bytes, at)->Ok_0.1;
        let possessive_pronoun = decode_at::<String>(reader, Ghost(bytes), Ghost(at))?;
        let ghost at = parse_at::<String>(bytes, at)->Ok_0.1;
        let reflexive = decode_at::<String>(reader, Ghost(bytes), Ghost(at))?;
        Ok(Pronouns { case_sensitive, plural, subject, object, possessive, possessive_pronoun, reflexive })
    }
}

impl RoundTrip for Pronouns {
    proof fn lemma_round_trip(v: PronounsView, rest: Seq<u8>) {
        let w_0 = <bool as Encode>::wire(v.case_sensitive);
        let w_1 = <bool as Encode>::wire(v.plural);
        let w_2 = <String as Encode>::wire(v.subject);
        let w_3 = <String as Encode>::wire(v.object);
        let w_4 = <String as Encode>::wire(v.possessive);
        let w_5 = <String as Encode>::wire(v.possessive_pronoun);
        let w_6 = <String as Encode>::wire(v.reflexive);
        let behind_5 = w_6 + rest;
        let behind_4 = w_5 + behind_5;
        let behind_3 = w_4 + behind_4;
        let behind_2 = w_3 + behind_3;
        let behind_1 = w_2 + behind_2;
        let behind_0 = w_1 + behind_1;
        let bytes = Self::wire(v) + rest;
        lemma_regroup(w_0 + w_1 + w_2 + w_3 + w_4 + w_5, w_6, rest);
        lemma_regroup(w_0 + w_1 + w_2 + w_3 + w_4, w_5, behind_5);
        lemma_regroup(w_0 + w_1 + w_2 + w_3, w_4, behind_4);
        lemma_regroup(w_0 + w_1 + w_2, w_3, behind_3);
        lemma_regroup(w_0 + w_1, w_2, behind_2);
        lemma_regroup(w_0, w_1, behind_1);
        assert(bytes.skip(0) =~= bytes);
        lemma_parse_at_of_wire::<bool>(bytes, 0, v.case_sensitive, behind_0);
        let at_0 = w_0.len();
        lemma_parse_at_of_wire::<bool>(bytes, at_0, v.plural, behind_1);
        let at_1 = at_0 + w_1.len();
        lemma_parse_at_of_wire::<String>(bytes, at_1, v.subject, behind_2);
        let at_2 = at_1 + w_2.len();
        lemma_parse_at_of_wire::<String>(bytes, at_2, v.object, behind_3);
        let at_3 = at_2 + w_3.len();
        lemma_parse_at_of_wire::<String>(bytes, at_3, v.possessive, behind_4);
        let at_4 = at_3 + w_4.len();
        lemma_parse_at_of_wire::<String>(bytes, at_4, v.possessive_pronoun, behind_5);
        let at_5 = at_4 + w_5.len();
        lemma_parse_at_of_wire::<String>(bytes, at_5, v.reflexive, rest);
    }

    proof fn lemma_parsed_encodable(bytes: Seq<u8>) {
        lemma_parse_at_encodable::<bool>(bytes, 0);
        if let Ok((case_sensitive, at_0)) = parse_at::<bool>(bytes, 0) {
            lemma_parse_at_encodable::<bool>(bytes, at_0);
            if let Ok((plural, at_1)) = parse_at::<bool>(bytes, at_0) {
                lemma_parse_at_encodable::<String>(bytes, at_1);
                if let Ok((subject, at_2)) = parse_at::<String>(bytes, at_1) {
                    lemma_parse_at_encodable::<String>(bytes, at_2);
                    if let Ok((object, at_3)) = parse_at::<String>(bytes, at_2) {
                        lemma_parse_at_encodable::<String>(bytes, at_3);
                        if let Ok((possessive, at_4)) = parse_at::<String>(bytes, at_3) {
                            lemma_parse_at_encodable::<String>(bytes, at_4);
                            if let Ok((possessive_pronoun, at_5)) = parse_at::<String>(bytes, at_4) {
                                lemma_parse_at_encodable::<String>(bytes, at_5);
                            }
                        }
                    }
                }
            }
        }
    }
}

/// The name for what `str::to_uppercase` makes of a text: its uppercase
/// form by the rules of Unicode, which do not depend on a locale.
pub uninterp spec fn uppercase_of(text: Seq<char>) -> Seq<char>;

/// `str::to_uppercase`: a new text, the uppercase form of `text`.
#[verifier::external_body]
fn to_uppercase(text: &str) -> (upper: String)
    ensures
        upper@ == uppercase_of(text@),
{
    text.to_uppercase()
}

/// The model of the set with the given parts.
pub open spec fn preset_view(
    case_sensitive: bool,
    plural: bool,
    subject: &str,
    object: &str,
    possessive: &str,
    possessive_pronoun: &str,
    reflexive: &str,
) -> PronounsView {
    PronounsView {
        case_sensitive,
        plural,
        subject: subject@,
        object: object@,
        possessive: possessive@,
        possessive_pronoun: possessive_pronoun@,
        reflexive: reflexive@,
    }
}

/// The sets that a user can pick from without typing one in.
pub open spec fn presets() -> Seq<PronounsView> {
    seq![
        preset_view(false, false, "she", "her", "her", "hers", "herself"),
        preset_view(false, false, "he", "him", "him", "him", "himself"),
        preset_view(false, false, "they", "them", "their", "theirs", "themself"),
        preset_view(false, true, "they", "them", "their", "theirs", "themselves"),
        preset_view(false, false, "fae", "faer", "faer", "faers", "faerself"),
        preset_view(false, false, "e", "em", "eir", "eirs", "emself"),
        preset_view(true, false, "E", "Em", "Eir", "Eirs", "Emself"),
        preset_view(false, false, "it", "its", "its", "its", "itself"),
    ]
}

fn preset(
    case_sensitive: bool,
    plural: bool,
    subject: &str,
    object: &str,
    possessive: &str,
    possessive_pronoun: &str,
    reflexive: &str,
) -> (set: Pronouns)
    ensures
        set@ == preset_view(
            case_sensitive,
            plural,
            subject,
            object,
            possessive,
            possessive_pronoun,
            reflexive,
        ),
{
    Pronouns {
        case_sensitive,
        plural,
        subject: String::from_str(subject),
        object: String::from_str(object),
        possessive: String::from_str(possessive),
        possessive_pronoun: String::from_str(possessive_pronoun),
        reflexive: String::from_str(reflexive),
    }
}

/// The sets that a user can pick from without typing one in.
pub fn make_presets() -> (sets: Vec<Pronouns>)
    ensures
        sets.deep_view() == presets(),
{
    let mut presets: Vec<Pronouns> = Vec::new();
    presets.push(preset(false, false, "she", "her", "her", "hers", "herself"));
    presets.push(preset(false, false, "he", "him", "him", "him", "himself"));
    presets.push(preset(false, false, "they", "them", "their", "theirs", "themself"));
    presets.push(preset(false, true, "they", "them", "their", "theirs", "themselves"));
    presets.push(preset(false, false, "fae", "faer", "faer", "faers", "faerself"));
    presets.push(preset(false, false, "e", "em", "eir", "eirs", "emself"));
    presets.push(preset(true, false, "E", "Em", "Eir", "Eirs", "Emself"));
    presets.push(preset(false, false, "it", "its", "its", "its", "itself"));
    assert(presets.deep_view() =~= self::presets());
    presets
}

/// The text that says how a set is used: which of "plural" and
/// "case-sensitive" hold of it, with a comma between them where both do.
/// `None` where neither does.
pub open spec fn usage_text(plural: bool, case_sensitive: bool) -> Option<Seq<char>> {
    if plural && case_sensitive {
        Some("plural"@ + ", "@ + "case-sensitive"@)
    } else if plural {
        Some("plural"@)
    } else if case_sensitive {
        Some("case-sensitive"@)
    } else {
        None
    }
}

/// The five forms of a set with a stroke between each two.
pub open spec fn pronouns_text(set: PronounsView) -> Seq<char> {
    set.subject + "/"@ + set.object + "/"@ + set.possessive + "/"@ + set.possessive_pronoun + "/"@
        + set.reflexive
}

/// A form as it stands at the start of a sentence: as it is where the set
/// is case-sensitive, and else with its first character in uppercase.
pub open spec fn capitalized(case_sensitive: bool, form: Seq<char>) -> Seq<char> {
    if case_sensitive {
        form
    } else if form.len() > 0 {
        uppercase_of(form.take(1)) + form.skip(1)
    } else {
        Seq::empty()
    }
}

impl Pronouns {
    /// The subject and the object form with a stroke between them.
    pub fn format_short(&self) -> (text: String)
        ensures
            text@ == self.subject@ + "/"@ + self.object@,
    {
        let mut text = self.subject.clone();
        text.append("/");
        text.append(self.object.as_str());
        text
    }

    /// The five forms with a stroke between each two.
    pub fn format_pronouns(&self) -> (text: String)
        ensures
            text@ == pronouns_text(self@),
    {
        let mut text = self.subject.clone();
        text.append("/");
        text.append(self.object.as_str());
        text.append("/");
        text.append(self.possessive.as_str());
        text.append("/");
        text.append(self.possessive_pronoun.as_str());
        text.append("/");
        text.append(self.reflexive.as_str());
        text
    }

    /// How the set is used, if there is anything to say of it.
    pub fn format_usage(&self) -> (text: Option<String>)
        ensures
            match usage_text(self.plural, self.case_sensitive) {
                Some(usage) => text matches Some(t) && t@ == usage,
                None => text is None,
            },
    {
        let mut usages: Vec<&str> = Vec::new();
        if self.plural {
            usages.push("plural");
        }
        if self.case_sensitive {
            usages.push("case-sensitive");
        }
        if usages.len() > 0 {
            let mut text = String::from_str(usages[0]);
            if usages.len() > 1 {
                text.append(", ");
                text.append(usages[1]);
            }
            Some(text)
        } else {
            None
        }
    }

    /// The five forms, and behind them in square brackets how the set is
    /// used, if there is anything to say of it.
    pub fn format_full(&self) -> (text: String)
        ensures
            text@ == match usage_text(self.plural, self.case_sensitive) {
                Some(usage) => pronouns_text(self@) + " ["@ + usage + "]"@,
                None => pronouns_text(self@),
            },
    {
        let mut pronouns = self.format_pronouns();
        if let Some(usage) = self.format_usage() {
            pronouns.append(" [");
            pronouns.append(usage.as_str());
            pronouns.append("]");
            pronouns
        } else {
            pronouns
        }
    }

    /// A form as it stands at the start of a sentence.
    fn capitalize(&self, form: &String) -> (text: String)
        ensures
            text@ == capitalized(self.case_sensitive, form@),
    {
        let form = form.as_str();
        let len = form.unicode_len();
        if self.case_sensitive {
            String::from_str(form)
        } else if len > 0 {
            let mut text = to_uppercase(form.substring_char(0, 1));
            text.append(form.substring_char(1, len));
            assert(form@.subrange(0, 1) =~= form@.take(1));
            assert(form@.subrange(1, len as int) =~= form@.skip(1));
            text
        } else {
            proof {
                reveal_strlit("");
            }
            String::from_str("")
        }
    }

    /// The table of the set: each form as it is, and each as it stands at
    /// the start of a sentence.
    pub fn make_table(&self) -> (table: PronounTable)
        ensures
            table@ == (PronounTableView {
                case_sensitive: self.case_sensitive,
                plural: self.plural,
                subject: self.subject@,
                object: self.object@,
                possessive: self.possessive@,
                possessive_pronoun: self.possessive_pronoun@,
                reflexive: self.reflexive@,
                subject_capitalized: capitalized(self.case_sensitive, self.subject@),
                object_capitalized: capitalized(self.case_sensitive, self.object@),
                possessive_capitalized: capitalized(self.case_sensitive, self.possessive@),
                possessive_pronoun_capitalized: capitalized(
                    self.case_sensitive,
                    self.possessive_pronoun@,
                ),
                reflexive_capitalized: capitalized(self.case_sensitive, self.reflexive@),
            }),
    {
        PronounTable {
            case_sensitive: self.case_sensitive,
            plural: self.plural,
            subject: self.subject.clone(),
            object: self.object.clone(),
            possessive: self.possessive.clone(),
            possessive_pronoun: self.possessive_pronoun.clone(),
            reflexive: self.reflexive.clone(),
            subject_capitalized: self.capitalize(&self.subject),
            object_capitalized: self.capitalize(&self.object),
            possessive_capitalized: self.capitalize(&self.possessive),
            possessive_pronoun_capitalized: self.capitalize(&self.possessive_pronoun),
            reflexive_capitalized: self.capitalize(&self.reflexive),
        }
    }
}

/// Baked pronoun lookup table for formatting messages.
#[derive(Debug, Clone, PartialEq, Eq)]
pub struct PronounTable {
    pub case_sensitive: bool,
    pub plural: bool,
    pub subject: String,
    pub object: String,
    pub possessive: String,
    pub possessive_pronoun: String,
    pub reflexive: String,
    pub subject_capitalized: String,
    pub object_capitalized: String,
    pub possessive_capitalized: String,
    pub possessive_pronoun_capitalized: String,
    pub reflexive_capitalized: String,
}

/// The model of a `PronounTable`: its fields as mathematical values.
pub struct PronounTableView {
    pub case_sensitive: bool,
    pub plural: bool,
    pub subject: Seq<char>,
    pub object: Seq<char>,
    pub possessive: Seq<char>,
    pub possessive_pronoun: Seq<char>,
    pub reflexive: Seq<char>,
    pub subject_capitalized: Seq<char>,
    pub object_capitalized: Seq<char>,
    pub possessive_capitalized: Seq<char>,
    pub possessive_pronoun_capitalized: Seq<char>,
    pub reflexive_capitalized: Seq<char>,
}

impl View for PronounTable {
    type V = PronounTableView;

    open spec fn view(&self) -> PronounTableView {
        PronounTableView {
            case_sensitive: self.case_sensitive,
            plural: self.plural,
            subject: self.subject@,
            object: self.object@,
            possessive: self.possessive@,
            possessive_pronoun: self.possessive_pronoun@,
            reflexive: self.reflexive@,
            subject_capitalized: self.subject_capitalized@,
            object_capitalized: self.object_capitalized@,
            possessive_capitalized: self.possessive_capitalized@,
            possessive_pronoun_capitalized: self.possessive_pronoun_capitalized@,
            reflexive_capitalized: self.reflexive_capitalized@,
        }
    }
}

} // verus!
