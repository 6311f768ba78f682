//! Eine ganze Website: die Karte nennt für jede Seite Eingabe und Ausgabe.

use vstd::prelude::*;
use crate::pfad::{verbinden, verbunden};

verus! {

/// Die Zeilen der Karte als Folgen ihrer Felder.
pub open spec fn karte_v(karte: Seq<Vec<String>>) -> Seq<Seq<Seq<char>>> {
    karte.map_values(|r: Vec<String>| r@.map_values(|x: String| x@))
}

/// Die Seiten der Karte: jede Zeile mit genau zwei Feldern (Eingabe,
/// Ausgabe) wird zu den mit `t` verbundenen Pfaden; andere Zeilen entfallen.
pub open spec fn seitenplan(t: Seq<char>, karte: Seq<Seq<Seq<char>>>) -> Seq<(Seq<char>, Seq<char>)>
    decreases karte.len(),
{
    if karte.len() == 0 {
        Seq::empty()
    } else {
        let vorne = seitenplan(t, karte.drop_last());
        let r = karte.last();
        if r.len() == 2 {
            vorne.push((verbunden(t, r[0]), verbunden(t, r[1])))
        } else {
            vorne
        }
    }
}

/// Die Datensätze einer CSV-Karte, wie `csv::ReaderBuilder` mit
/// `has_headers(true)` und `comment(Some(b'#'))` sie liest: ohne die
/// Kopfzeile und ohne Zeilen, die mit `#` beginnen; `None`, wenn das Lesen
/// scheitert (etwa bei ungleich langen Zeilen oder Feldern, die kein UTF-8
/// sind).
pub uninterp spec fn csv_datensaetze(text: Seq<u8>) -> Option<Seq<Seq<Seq<char>>>>;

/// Liest die Datensätze einer CSV-Karte mit dem `csv`-Leser (Kopfzeile,
/// `#`-Kommentare). Vertrag: das Ergebnis ist `csv_datensaetze(text)`.
#[verifier::external_body]
fn karte_lesen(text: &[u8]) -> (res: Option<Vec<Vec<String>>>)
    ensures
        (res is None) == (csv_datensaetze(text@) is None),
        res matches Some(k) ==> csv_datensaetze(text@) == Some(karte_v(k@)),
{
    let mut leser = csv::ReaderBuilder::new().has_headers(true).comment(Some(b'#')).from_reader(text);
    leser
        .records()
        .map(|r| r.map(|zeile| zeile.iter().map(|feld| feld.to_string()).collect()))
        .collect::<Result<Vec<Vec<String>>, csv::Error>>()
        .ok()
}

/// Plant die Seiten einer Website aus dem Text ihrer CSV-Karte: die
/// Datensätze (ohne Kopfzeile und `#`-Zeilen) werden wie in [`plan`] zu
/// Paaren aus Eingabe- und Ausgabepfad. `None`, wenn sich die Karte nicht
/// lesen lässt.
pub fn process(template_path: &str, karte_text: &[u8]) -> (res: Option<Vec<(String, String)>>)
    ensures
        match csv_datensaetze(karte_text@) {
            None => res is None,
            Some(k) => res matches Some(p)
                && p@.map_values(|q: (String, String)| (q.0@, q.1@)) == seitenplan(template_path@, k),
        },
{
    match karte_lesen(karte_text) {
        None => None,
        Some(karte) => Some(plan(template_path, karte)),
    }
}

/// Plant die Seiten einer Website aus den Zeilen ihrer Karte (siehe
/// [`seitenplan`]): Paare aus Eingabe- und Ausgabepfad, in der Reihenfolge
/// der Karte.
pub fn plan(template_path: &str, karte: Vec<Vec<String>>) -> (res: Vec<(String, String)>)
    ensures
        res@.map_values(|p: (String, String)| (p.0@, p.1@)) == seitenplan(template_path@, karte_v(karte@)),
{
    let ghost kv = karte_v(karte@);
    let mut res: Vec<(String, String)> = Vec::new();
    let mut i: usize = 0;
    assert(kv.take(0) =~= Seq::<Seq<Seq<char>>>::empty());
    assert(res@.map_values(|p: (String, String)| (p.0@, p.1@)) =~= Seq::<(Seq<char>, Seq<char>)>::empty());
    while i < karte.len()
        invariant
            kv == karte_v(karte@),
            i <= karte@.len(),
            res@.map_values(|p: (String, String)| (p.0@, p.1@)) == seitenplan(template_path@, kv.take(i as int)),
        decreases karte@.len() - i,
    {
        assert(kv.take(i + 1).drop_last() =~= kv.take(i as int));
        assert(kv.take(i + 1).last() == karte@[i as int]@.map_values(|x: String| x@));
        let zeile = &karte[i];
        if zeile.len() == 2 {
            let eingabe = verbinden(template_path, zeile[0].as_str());
            let ausgabe = verbinden(template_path, zeile[1].as_str());
            let ghost alt = res@;
            res.push((eingabe, ausgabe));
            assert(res@.map_values(|p: (String, String)| (p.0@, p.1@))
                =~= alt.map_values(|p: (String, String)| (p.0@, p.1@)).push((res@.last().0@, res@.last().1@)));
        }
        i = i + 1;
    }
    assert(kv.take(i as int) =~= kv);
    res
}

} // verus!
