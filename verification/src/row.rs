//! The row data model: degree programs, module types, and the offer of
//! a module within one program, with their fallible resolvers from the
//! table's literal vocabulary.

use vstd::prelude::*;

use crate::chars::eq_lit;

verus! {

/// A tracked bachelor degree program. The table also names several
/// other programs; those resolve to no value rather than to an error.
#[derive(Clone, Copy, Debug, PartialEq, Eq, Structural)]
pub enum Bachelor {
    CyberSecurity,
    ComputerScience,
    Economics,
    ArtificialIntelligence,
}

/// The classification of a module: its type code, resolved.
#[derive(Clone, Copy, Debug, PartialEq, Eq, Structural)]
pub enum ModuleType {
    /// Kernmodul
    Core,
    /// Projektmodul
    Project,
    /// Erweiterungsmodul
    Extension,
    /// Zusatzmodul
    Misc,
    /// Majormodul
    Major,
}

/// The classification of a module within one program.
#[derive(Clone, Copy, Debug, PartialEq, Eq, Structural)]
pub struct ModuleOffer {
    pub ty: ModuleType,
    pub obligatory: bool,
}

/// The program a table literal names: one of the four tracked programs,
/// or nothing for the known-but-untracked program names and for any
/// unrecognized string.
pub open spec fn bachelor_of(s: Seq<char>) -> Option<Bachelor> {
    if s == "Information & Cyber Security"@ {
        Some(Bachelor::CyberSecurity)
    } else if s == "Wirtschaftsinformatik"@ {
        Some(Bachelor::Economics)
    } else if s == "Artificial Intelligence & Machine Learning"@ {
        Some(Bachelor::ArtificialIntelligence)
    } else if s == "Informatik"@ {
        Some(Bachelor::ComputerScience)
    } else {
        None
    }
}

/// The module type a code field names, or nothing for an unrecognized
/// code. The combined codes `"M, E"` and `"E, M"` both resolve to the
/// major type.
pub open spec fn module_type_of(s: Seq<char>) -> Option<ModuleType> {
    if s == "K"@ {
        Some(ModuleType::Core)
    } else if s == "P"@ {
        Some(ModuleType::Project)
    } else if s == "E"@ {
        Some(ModuleType::Extension)
    } else if s == "M"@ {
        Some(ModuleType::Major)
    } else if s == "M, E"@ {
        Some(ModuleType::Major)
    } else if s == "E, M"@ {
        Some(ModuleType::Major)
    } else if s == "Z"@ {
        Some(ModuleType::Misc)
    } else {
        None
    }
}

/// The captured obligatory/elective literal makes the offer obligatory
/// exactly when it is one of the two mandatory words.
pub open spec fn obligatory_of(s: Seq<char>) -> bool {
    s == "Pflicht"@ || s == "Mandatory"@
}

impl Bachelor {
    /// The catalogue page of this program.
    pub open spec fn url_spec(self) -> Seq<char> {
        match self {
            Bachelor::CyberSecurity => "https://mycampus.hslu.ch/de-ch/info-i/infos-und-dokumente/bachelor/bachelor-allgemein/moduleinschreibung/modulbeschriebe/bachelor-in-information-and-cyber-security/"@,
            Bachelor::ComputerScience => "https://mycampus.hslu.ch/de-ch/info-i/infos-und-dokumente/bachelor/bachelor-allgemein/moduleinschreibung/modulbeschriebe/modulbeschriebe-studiengang-informatik/"@,
            Bachelor::Economics => "https://mycampus.hslu.ch/de-ch/info-i/infos-und-dokumente/bachelor/bachelor-allgemein/moduleinschreibung/modulbeschriebe/modulbeschriebe-wirtschaftsinformatik-neues-curriculum/"@,
            Bachelor::ArtificialIntelligence => "https://mycampus.hslu.ch/de-ch/info-i/infos-und-dokumente/bachelor/bachelor-allgemein/moduleinschreibung/modulbeschriebe/bachelor-artificial-intelligence-machine-learning/"@,
        }
    }

    /// The catalogue page of this program.
    pub fn url(&self) -> (r: &'static str)
        ensures
            r@ == self.url_spec(),
    {
        match self {
            Bachelor::CyberSecurity => "https://mycampus.hslu.ch/de-ch/info-i/infos-und-dokumente/bachelor/bachelor-allgemein/moduleinschreibung/modulbeschriebe/bachelor-in-information-and-cyber-security/",
            Bachelor::ComputerScience => "https://mycampus.hslu.ch/de-ch/info-i/infos-und-dokumente/bachelor/bachelor-allgemein/moduleinschreibung/modulbeschriebe/modulbeschriebe-studiengang-informatik/",
            Bachelor::Economics => "https://mycampus.hslu.ch/de-ch/info-i/infos-und-dokumente/bachelor/bachelor-allgemein/moduleinschreibung/modulbeschriebe/modulbeschriebe-wirtschaftsinformatik-neues-curriculum/",
            Bachelor::ArtificialIntelligence => "https://mycampus.hslu.ch/de-ch/info-i/infos-und-dokumente/bachelor/bachelor-allgemein/moduleinschreibung/modulbeschriebe/bachelor-artificial-intelligence-machine-learning/",
        }
    }

    /// Resolves a program-name literal, as `bachelor_of` says.
    pub fn from_str(s: &str) -> (r: Option<Bachelor>)
        ensures
            r == bachelor_of(s@),
    {
        let v = crate::chars::to_chars(s);
        Bachelor::from_chars(&v)
    }

    /// `Bachelor::from_str`, on text already split into characters.
    pub fn from_chars(v: &Vec<char>) -> (r: Option<Bachelor>)
        ensures
            r == bachelor_of(v@),
    {
        if eq_lit(v, "Information & Cyber Security") {
            Some(Bachelor::CyberSecurity)
        } else if eq_lit(v, "Wirtschaftsinformatik") {
            Some(Bachelor::Economics)
        } else if eq_lit(v, "Artificial Intelligence & Machine Learning") {
            Some(Bachelor::ArtificialIntelligence)
        } else if eq_lit(v, "Informatik") {
            Some(Bachelor::ComputerScience)
        } else {
            None
        }
    }
}

impl ModuleType {
    /// Resolves a type-code field, as `module_type_of` says.
    pub fn from_str(s: &str) -> (r: Option<ModuleType>)
        ensures
            r == module_type_of(s@),
    {
        let v = crate::chars::to_chars(s);
        ModuleType::from_chars(&v)
    }

    /// `ModuleType::from_str`, on text already split into characters.
    pub fn from_chars(v: &Vec<char>) -> (r: Option<ModuleType>)
        ensures
            r == module_type_of(v@),
    {
        if eq_lit(v, "K") {
            Some(ModuleType::Core)
        } else if eq_lit(v, "P") {
            Some(ModuleType::Project)
        } else if eq_lit(v, "E") {
            Some(ModuleType::Extension)
        } else if eq_lit(v, "M") {
            Some(ModuleType::Major)
        } else if eq_lit(v, "M, E") {
            Some(ModuleType::Major)
        } else if eq_lit(v, "E, M") {
            Some(ModuleType::Major)
        } else if eq_lit(v, "Z") {
            Some(ModuleType::Misc)
        } else {
            None
        }
    }
}

} // verus!
