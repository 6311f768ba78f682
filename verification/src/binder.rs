//! Der Binder: Sammlungen erkennen und für jeden Datensatz einer Sammlung
//! eine eigene Seite mit eigenem Ausgabepfad erzeugen.

use vstd::prelude::*;
use vstd::string::{StrSliceExecFns, StringExecFns};
use crate::fehler::{FehlerArt, VehaFehler};
use crate::pfad::{erstes_in, ersetzen, ersetzt, kennzeichen_spec, kennzeichen_teil_von, lemma_erstes};
use crate::tabular::{spalten_lauf, werte_einfuellen, Datensatz, SpaltenZustand};
use crate::leser::xml_lesungen;

verus! {

/// Sucht in den Bestandteilen eines Pfads (zwischen `/`) den ersten, in dem
/// ein `+` vor `{` und dieses vor `}` steht, und liefert den Schlüssel
/// zwischen den Klammern (z. B. `beitrag+{id}.xhtml` → `id`).
pub fn kennzeichen_ausgeben(pfad: &str) -> (res: Option<String>)
    ensures
        match kennzeichen_spec(pfad@) {
            Some(k) => res matches Some(r) && r@ == k,
            None => res is None,
        },
{
    let n = pfad.unicode_len();
    let mut start: usize = 0;
    assert(pfad@.subrange(0, n as int) =~= pfad@);
    loop
        invariant
            n == pfad@.len(),
            start <= n,
            kennzeichen_spec(pfad@) == kennzeichen_spec(pfad@.subrange(start as int, n as int)),
        decreases n - start,
    {
        let ghost rest = pfad@.subrange(start as int, n as int);
        let j = erstes_in(pfad, start, n, '/');
        match j {
            None => {
                return kennzeichen_teil_von(pfad, start, n);
            },
            Some(j) => {
                proof {
                    lemma_erstes(rest, '/');
                    assert(rest.subrange(0, j - start) =~= pfad@.subrange(start as int, j as int));
                    assert(rest.subrange(j - start + 1, rest.len() as int) =~= pfad@.subrange(j + 1, n as int));
                }
                let k = kennzeichen_teil_von(pfad, start, j);
                if k.is_some() {
                    return k;
                }
                start = j + 1;
            },
        }
    }
}
/// Der Platzhalter eines Schlüssels im Ausgabepfad: `+{schluessel}`.
pub open spec fn platzhalter(k: Seq<char>) -> Seq<char> {
    seq!['+', '{'] + k + seq!['}']
}

/// Ob der Schlüssel des `i`-ten Felds weiter hinten noch einmal vorkommt (dann
/// gilt dort sein Wert, wie in einer Hash-Tabelle).
pub open spec fn spaeter_belegt(felder: Seq<(Seq<char>, Seq<char>)>, i: int) -> bool {
    exists|j: int| i < j < felder.len() && #[trigger] felder[j].0 == felder[i].0
}

/// Der Ausgabepfad nach den ersten `n` Feldern: für jeden Schlüssel (mit
/// seinem gültigen Wert) wird `+{schluessel}` durch den Wert ersetzt.
pub open spec fn ausgabepfad_bis(p: Seq<char>, felder: Seq<(Seq<char>, Seq<char>)>, n: int) -> Seq<char>
    decreases n,
{
    if n <= 0 {
        p
    } else {
        let q = ausgabepfad_bis(p, felder, n - 1);
        if spaeter_belegt(felder, n - 1) {
            q
        } else {
            ersetzt(q, platzhalter(felder[n - 1].0), felder[n - 1].1)
        }
    }
}

pub open spec fn ausgabepfad(p: Seq<char>, felder: Seq<(Seq<char>, Seq<char>)>) -> Seq<char> {
    ausgabepfad_bis(p, felder, felder.len() as int)
}

/// Setzt die Werte eines Datensatzes in einen Ausgabepfad ein: jedes
/// `+{schluessel}` wird durch den Wert des Schlüssels ersetzt (jeder
/// Schlüssel einmal, mit seinem zuletzt eingetragenen Wert).
pub fn ausgabepfadersteller(path: &str, params: &Datensatz) -> (res: String)
    ensures
        res@ == ausgabepfad(path@, params@),
{
    let mut res = String::from_str(path);
    let n = params.felder.len();
    let mut i: usize = 0;
    while i < n
        invariant
            n == params@.len(),
            i <= n,
            res@ == ausgabepfad_bis(path@, params@, i as int),
        decreases n - i,
    {
        let k = &params.felder[i].0;
        let mut spaeter = false;
        let mut j = i + 1;
        while j < n
            invariant
                n == params@.len(),
                i < j <= n,
                k@ == params@[i as int].0,
                spaeter == exists|m: int| i < m < j && #[trigger] params@[m].0 == params@[i as int].0,
            decreases n - j,
        {
            assert(params@[j as int].0 == params.felder@[j as int].0@);
            if params.felder[j].0 == *k {
                spaeter = true;
            }
            proof {
                if params@[j as int].0 == params@[i as int].0 {
                    assert(i < j < j + 1 && params@[j as int].0 == params@[i as int].0);
                }
            }
            j = j + 1;
        }
        if !spaeter {
            let mut muster = String::new();
            let auf = "+{";
            let zu = "}";
            proof {
                reveal_strlit("+{");
                reveal_strlit("}");
            }
            muster.append(auf);
            muster.append(k.as_str());
            muster.append(zu);
            assert(muster@ =~= platzhalter(k@));
            res = ersetzen(res.as_str(), muster.as_str(), params.felder[i].1.as_str());
        }
        i = i + 1;
    }
    res
}

/// Die Seite eines Datensatzes: ihr Ausgabepfad und ihr Inhalt.
#[derive(Debug)]
pub struct Seite {
    pub pfad: String,
    pub inhalt: Vec<u8>,
}

/// Erzeugt die Seite eines Datensatzes einer Sammlung: der Ausgabepfad mit
/// den eingesetzten Werten und die Vorlage mit den eingefüllten Spalten.
pub fn seite_erzeugen(ausgabepfad_muster: &str, vorlage: &str, zeile: &Datensatz) -> (res: Result<Seite, VehaFehler>)
    ensures
        match res {
            Ok(seite) => {
                &&& seite.pfad@ == ausgabepfad(ausgabepfad_muster@, zeile@)
                &&& spalten_lauf(zeile@, xml_lesungen(vorlage@, false)) matches Ok(z)
                &&& seite.inhalt@ == z.ausgabe
            },
            Err(f) => spalten_lauf(zeile@, xml_lesungen(vorlage@, false)) == Err::<SpaltenZustand, FehlerArt>(f.art()),
        },
{
    let pfad = ausgabepfadersteller(ausgabepfad_muster, zeile);
    let inhalt = werte_einfuellen(vorlage, zeile)?;
    Ok(Seite { pfad, inhalt })
}

/// Erzeugt für jeden Datensatz einer Sammlung eine Seite (siehe
/// [`seite_erzeugen`]), in der Reihenfolge der Datensätze; scheitert eine,
/// der Fehler der ersten, die scheitert.
pub fn seiten_erzeugen(ausgabepfad_muster: &str, vorlage: &str, zeilen: Vec<Datensatz>)
    -> (res: Result<Vec<Seite>, VehaFehler>)
    ensures
        match res {
            Ok(seiten) => seiten@.len() == zeilen@.len() && forall|i: int| 0 <= i < zeilen@.len() ==> {
                &&& #[trigger] seiten@[i].pfad@ == ausgabepfad(ausgabepfad_muster@, zeilen@[i]@)
                &&& spalten_lauf(zeilen@[i]@, xml_lesungen(vorlage@, false)) matches Ok(z)
                &&& seiten@[i].inhalt@ == z.ausgabe
            },
            Err(f) => exists|i: int| 0 <= i < zeilen@.len()
                && spalten_lauf(#[trigger] zeilen@[i]@, xml_lesungen(vorlage@, false))
                    == Err::<SpaltenZustand, FehlerArt>(f.art())
                && forall|k: int| 0 <= k < i ==> spalten_lauf(#[trigger] zeilen@[k]@, xml_lesungen(vorlage@, false)) is Ok,
        },
{
    let mut seiten: Vec<Seite> = Vec::new();
    let mut i: usize = 0;
    while i < zeilen.len()
        invariant
            i <= zeilen@.len(),
            seiten@.len() == i,
            forall|k: int| 0 <= k < i ==> {
                &&& #[trigger] seiten@[k].pfad@ == ausgabepfad(ausgabepfad_muster@, zeilen@[k]@)
                &&& spalten_lauf(zeilen@[k]@, xml_lesungen(vorlage@, false)) matches Ok(z)
                &&& seiten@[k].inhalt@ == z.ausgabe
            },
        decreases zeilen@.len() - i,
    {
        match seite_erzeugen(ausgabepfad_muster, vorlage, &zeilen[i]) {
            Ok(seite) => {
                seiten.push(seite);
            },
            Err(f) => {
                assert forall|k: int| 0 <= k < i implies spalten_lauf(#[trigger] zeilen@[k]@, xml_lesungen(vorlage@, false)) is Ok by {
                    assert(seiten@[k].pfad@ == ausgabepfad(ausgabepfad_muster@, zeilen@[k]@));
                }
                return Err(f);
            },
        }
        i = i + 1;
    }
    Ok(seiten)
}

/// Der Binder selbst hat (noch) nichts zu tun.
pub fn process() {
}

} // verus!
