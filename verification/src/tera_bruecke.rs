//! Der Zugang zu `tera` und `toml`: eine Vorlage aufnehmen, TOML-Werte in
//! einen Kontext legen, eine Vorlage darstellen.
//!
//! Eine `Tera`-Instanz und ein `Context` stehen hier in Strukturen, die
//! festhalten, was ihnen gegeben wurde: die Quelltexte der Vorlagen und die
//! TOML-Texte der Werte. Nur die Funktionen dieses Moduls ändern sie.

use vstd::prelude::*;
use tera::{Context, Tera};

verus! {

#[verifier::external_type_specification]
#[verifier::external_body]
pub struct ExTera(Tera);

#[verifier::external_type_specification]
#[verifier::external_body]
pub struct ExContext(Context);

/// Ob `toml::from_str::<toml::Value>` den Text als TOML-Dokument annimmt.
pub uninterp spec fn toml_gueltig(text: Seq<char>) -> bool;

/// Ob `add_raw_template(name, inhalt)` auf einer Instanz gelingt, der bisher
/// ohne Fehlschlag genau Vorlagen mit diesen Quelltexten gegeben wurden (die
/// Vorlage lässt sich zerlegen, und die Vererbungsketten aller Vorlagen
/// lassen sich bilden).
pub uninterp spec fn tera_aufnahme_ok(vorlagen: Map<Seq<char>, Seq<char>>, name: Seq<char>, inhalt: Seq<char>) -> bool;

/// Ob `ausgabe` eine Darstellung ist, die `Tera::render` für die Vorlage
/// `name` liefern kann (in irgendeiner Umgebung: die eingebauten Funktionen
/// `get_env`, `now` und `get_random` lesen sie), auf einer Instanz, der ohne
/// Fehlschlag genau Vorlagen mit diesen Quelltexten gegeben wurden, mit einem
/// Kontext, der unter jedem Schlüssel den Wert des TOML-Texts aus `inhalt`
/// hält.
pub uninterp spec fn tera_darstellung(
    quellen: Map<Seq<char>, Seq<char>>,
    name: Seq<char>,
    inhalt: Map<Seq<char>, Seq<char>>,
    ausgabe: Seq<char>,
) -> bool;

/// Ob `Tera::render` für die Vorlage `name` mit diesen Quelltexten und
/// diesem Kontext (wie bei [`tera_darstellung`]) in jeder Umgebung gelingt.
pub uninterp spec fn tera_gelingt(quellen: Map<Seq<char>, Seq<char>>, name: Seq<char>, inhalt: Map<Seq<char>, Seq<char>>) -> bool;

/// Der Schlüssel, unter dem eine Konfiguration im Kontext steht: ihr Name,
/// ohne Namen `config`.
pub open spec fn kontext_name(name: Option<Seq<char>>) -> Seq<char> {
    match name {
        Some(n) => n,
        None => seq!['c', 'o', 'n', 'f', 'i', 'g'],
    }
}

/// Eine Tera-Instanz mit den Quelltexten der Vorlagen, die ihr gegeben
/// wurden, und ob bisher jede Aufnahme gelang.
pub struct Vorlagen {
    tera: Tera,
    quellen: Ghost<Map<Seq<char>, Seq<char>>>,
    heil: Ghost<bool>,
}

impl Vorlagen {
    /// Name → Quelltext der aufgenommenen Vorlagen.
    pub closed spec fn quellen(self) -> Map<Seq<char>, Seq<char>> {
        self.quellen@
    }

    /// Bisher ist keine Aufnahme gescheitert; dann hält die Instanz genau die
    /// Vorlagen aus [`Vorlagen::quellen`].
    pub closed spec fn heil(self) -> bool {
        self.heil@
    }
}

/// Ein Tera-Kontext mit den TOML-Texten, aus denen seine Werte gelesen
/// wurden.
pub struct Kontext {
    kontext: Context,
    inhalt: Ghost<Map<Seq<char>, Seq<char>>>,
}

impl Kontext {
    /// Schlüssel → TOML-Text, dessen Wert unter dem Schlüssel steht.
    pub closed spec fn inhalt(self) -> Map<Seq<char>, Seq<char>> {
        self.inhalt@
    }
}

/// `Tera::default()`: eine Instanz ohne Vorlagen.
#[verifier::external_body]
pub(crate) fn vorlagen_neu() -> (instanz: Vorlagen)
    ensures
        instanz.quellen().dom() == Set::<Seq<char>>::empty(),
        instanz.heil(),
{
    Vorlagen { tera: Tera::default(), quellen: Ghost(Map::empty()), heil: Ghost(true) }
}

/// `Tera::add_raw_template`. Vertrag: auf einer heilen Instanz gelingt es
/// genau nach `tera_aufnahme_ok`, und dann hält die Instanz den Quelltext
/// unter dem Namen. Nach einem Fehler gilt die Instanz nicht mehr als heil
/// (die Vorlage kann schon eingetragen sein, wenn erst die Vererbungsketten
/// scheitern).
#[verifier::external_body]
pub(crate) fn vorlage_aufnehmen(v: &mut Vorlagen, name: &str, inhalt: &str) -> (res: Result<(), String>)
    requires
        old(v).heil(),
    ensures
        (res is Ok) == tera_aufnahme_ok(old(v).quellen(), name@, inhalt@),
        res is Ok ==> final(v).heil() && final(v).quellen() == old(v).quellen().insert(name@, inhalt@),
        res is Err ==> !final(v).heil(),
{
    match v.tera.add_raw_template(name, inhalt) {
        Ok(()) => {
            v.quellen = Ghost(v.quellen@.insert(name@, inhalt@));
            Ok(())
        },
        Err(e) => {
            v.heil = Ghost(false);
            Err(e.to_string())
        },
    }
}

/// `Context::new()`: ein leerer Kontext.
#[verifier::external_body]
pub(crate) fn kontext_neu() -> (kontext: Kontext)
    ensures
        kontext.inhalt().dom() == Set::<Seq<char>>::empty(),
{
    Kontext { kontext: Context::new(), inhalt: Ghost(Map::empty()) }
}

/// `toml::from_str::<toml::Value>(text)` und, wenn das gelingt,
/// `Context::insert(schluessel, &wert)`. Vertrag: gelingt genau für gültiges
/// TOML, und dann steht unter dem Schlüssel der Wert dieses Texts; sonst
/// bleibt der Kontext, wie er war. Ein TOML-Wert lässt sich immer in einen
/// JSON-Wert umwandeln (auch Datumswerte und nicht endliche Zahlen), so dass
/// `insert` nicht abbricht.
#[verifier::external_body]
pub(crate) fn toml_einfuegen(k: &mut Kontext, schluessel: &str, text: &str) -> (res: Result<(), String>)
    ensures
        (res is Ok) == toml_gueltig(text@),
        res is Ok ==> final(k).inhalt() == old(k).inhalt().insert(schluessel@, text@),
        res is Err ==> final(k).inhalt() == old(k).inhalt(),
{
    match toml::from_str::<toml::Value>(text) {
        Ok(wert) => {
            k.kontext.insert(schluessel, &wert);
            k.inhalt = Ghost(k.inhalt@.insert(schluessel@, text@));
            Ok(())
        },
        Err(e) => Err(e.to_string()),
    }
}

/// `Tera::render`. Das Ergebnis hängt außer von Vorlagen und Kontext auch von
/// der Umgebung ab (die eingebauten Funktionen `get_env`, `now`,
/// `get_random`); darum nennt der Vertrag es nicht, sondern sagt: ein
/// Ergebnis ist eine Darstellung der Vorlage `name` mit diesen Quelltexten und
/// diesem Kontext ([`tera_darstellung`]); gelingt die Darstellung in jeder
/// Umgebung ([`tera_gelingt`]), gelingt sie; ohne eine Vorlage dieses Namens
/// scheitert sie. Über die Fehlermeldung sagt der Vertrag nichts.
#[verifier::external_body]
pub(crate) fn rendern(v: &Vorlagen, name: &str, k: &Kontext) -> (res: Result<String, String>)
    requires
        v.heil(),
    ensures
        res matches Ok(r) ==> tera_darstellung(v.quellen(), name@, k.inhalt(), r@),
        tera_gelingt(v.quellen(), name@, k.inhalt()) ==> res is Ok,
        !v.quellen().dom().contains(name@) ==> res is Err,
{
    match v.tera.render(name, &k.kontext) {
        Ok(s) => Ok(s),
        Err(e) => Err(e.to_string()),
    }
}

} // verus!
