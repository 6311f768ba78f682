//! Die Fehler der Motoren.

use vstd::prelude::*;
use vstd::string::StringExecFns;

verus! {

/// Warum ein Motor ein Dokument nicht verarbeiten konnte.
#[derive(Debug)]
pub enum VehaFehler {
    /// Der XML-Leser meldete einen Fehler.
    Xml(String),
    /// Ein Attribut eines Tags ließ sich nicht lesen oder ist kein UTF-8.
    Attribut,
    /// Ein `</column>` ohne offenes ersetztes `<column>`.
    KeineOffeneSpalte,
    /// Bytes, die als Text gelesen werden sollten, sind kein UTF-8.
    KeinUtf8,
    /// Ein Tag, der nur einmal vorkommen darf, kam mehrmals vor.
    MehrfachTag(String),
    /// Ein `<sqlite>`-Tag fehlt oder ist nicht richtig geschlossen.
    KeinSqliteTag,
    /// Ein `<toml>`- oder `<tera>`-Tag hat kein `src`-Attribut.
    KeinSrc(String),
    /// Für eine Anfrage nach außen (Datei, Datenbank) lag keine passende
    /// Antwort vor.
    FehlendeAntwort,
    /// Das Dokument endete, bevor ein `<vorlage>` geschlossen wurde.
    VorzeitigesEnde,
    /// Eine TOML-Konfiguration ließ sich nicht lesen.
    Toml(String),
    /// Die Vorlage ließ sich nicht übernehmen oder nicht darstellen.
    Tera(String),
}

/// Die Art eines [`VehaFehler`], ohne Meldung.
#[derive(Clone, Copy, Debug, PartialEq, Eq, Structural)]
pub enum FehlerArt {
    Xml,
    Attribut,
    KeineOffeneSpalte,
    KeinUtf8,
    MehrfachTag,
    KeinSqliteTag,
    KeinSrc,
    FehlendeAntwort,
    VorzeitigesEnde,
    Toml,
    Tera,
}

impl VehaFehler {
    /// Der Tag, den ein Fehler nennt (bei mehrfachem Tag und fehlendem `src`).
    pub open spec fn tag_text(&self) -> Option<Seq<char>> {
        match self {
            VehaFehler::MehrfachTag(t) => Some(t@),
            VehaFehler::KeinSrc(t) => Some(t@),
            _ => None,
        }
    }

    /// Die Art des Fehlers.
    pub open spec fn art(&self) -> FehlerArt {
        match self {
            VehaFehler::Xml(_) => FehlerArt::Xml,
            VehaFehler::Attribut => FehlerArt::Attribut,
            VehaFehler::KeineOffeneSpalte => FehlerArt::KeineOffeneSpalte,
            VehaFehler::KeinUtf8 => FehlerArt::KeinUtf8,
            VehaFehler::MehrfachTag(_) => FehlerArt::MehrfachTag,
            VehaFehler::KeinSqliteTag => FehlerArt::KeinSqliteTag,
            VehaFehler::KeinSrc(_) => FehlerArt::KeinSrc,
            VehaFehler::FehlendeAntwort => FehlerArt::FehlendeAntwort,
            VehaFehler::VorzeitigesEnde => FehlerArt::VorzeitigesEnde,
            VehaFehler::Toml(_) => FehlerArt::Toml,
            VehaFehler::Tera(_) => FehlerArt::Tera,
        }
    }
}

impl VehaFehler {
    /// Die Meldung eines Fehlers: für Lese-, TOML- und Tera-Fehler die
    /// Meldung der Bibliothek, die ihn fand; sonst ein fester Text, in dem
    /// der Tag steht, wo der Fehler einen nennt.
    pub fn meldung(&self) -> (res: String)
        ensures
            match self {
                VehaFehler::Xml(m) => res@ == m@,
                VehaFehler::Toml(m) => res@ == m@,
                VehaFehler::Tera(m) => res@ == m@,
                VehaFehler::MehrfachTag(t) => res@ == "More than one <\""@ + t@ + "\"> tag found"@,
                VehaFehler::KeinSrc(t) => res@ == "no src attribute is supplied for the "@ + t@ + " tag."@,
                VehaFehler::KeinSqliteTag => res@ == "No <sqlite> tag found or it is not properly closed."@,
                VehaFehler::VorzeitigesEnde => res@ == "Premature EOF"@,
                VehaFehler::Attribut => res@ == "an attribute could not be read"@,
                VehaFehler::KeineOffeneSpalte => res@ == "closing </column> without an open column"@,
                VehaFehler::KeinUtf8 => res@ == "the content is not valid UTF-8"@,
                VehaFehler::FehlendeAntwort => res@ == "no answer was supplied for a request"@,
            },
    {
        match self {
            VehaFehler::Xml(m) => m.clone(),
            VehaFehler::Toml(m) => m.clone(),
            VehaFehler::Tera(m) => m.clone(),
            VehaFehler::MehrfachTag(t) => {
                let mut r = String::from_str("More than one <\"");
                r.append(t.as_str());
                r.append("\"> tag found");
                r
            },
            VehaFehler::KeinSrc(t) => {
                let mut r = String::from_str("no src attribute is supplied for the ");
                r.append(t.as_str());
                r.append(" tag.");
                r
            },
            VehaFehler::KeinSqliteTag => String::from_str("No <sqlite> tag found or it is not properly closed."),
            VehaFehler::VorzeitigesEnde => String::from_str("Premature EOF"),
            VehaFehler::Attribut => String::from_str("an attribute could not be read"),
            VehaFehler::KeineOffeneSpalte => String::from_str("closing </column> without an open column"),
            VehaFehler::KeinUtf8 => String::from_str("the content is not valid UTF-8"),
            VehaFehler::FehlendeAntwort => String::from_str("no answer was supplied for a request"),
        }
    }
}

} // verus!
