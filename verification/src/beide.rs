//! Ein XML-Dokument aus Datensätzen (`id`, `value`) ändern: der Datensatz
//! mit der Kennung `1` bekommt einen neuen Wert.

use vstd::prelude::*;
use vstd::string::StringExecFns;
use crate::utils::{bytes_gleich, lemma_kodierung_injektiv};

verus! {

/// Ein Datensatz des Dokuments.
#[derive(Debug)]
pub struct Record {
    pub id: String,
    pub value: String,
}

/// Das Dokument: seine Datensätze in ihrer Reihenfolge.
#[derive(Debug)]
pub struct XmlData {
    pub records: Vec<Record>,
}

impl View for XmlData {
    type V = Seq<(Seq<char>, Seq<char>)>;

    open spec fn view(&self) -> Seq<(Seq<char>, Seq<char>)> {
        self.records@.map_values(|r: Record| (r.id@, r.value@))
    }
}

/// Ein Datensatz nach der Änderung: mit der Kennung `1` bekommt er den Wert
/// `UpdatedValue`, jeder andere bleibt.
pub open spec fn aktualisiert(r: (Seq<char>, Seq<char>)) -> (Seq<char>, Seq<char>) {
    if r.0 == seq!['1'] {
        (r.0, seq!['U', 'p', 'd', 'a', 't', 'e', 'd', 'V', 'a', 'l', 'u', 'e'])
    } else {
        r
    }
}

/// Ändert das Dokument wie `probe`: jeder Datensatz mit der Kennung `1`
/// bekommt den Wert `UpdatedValue`; Reihenfolge und alle übrigen Werte
/// bleiben.
pub fn aktualisieren(data: &mut XmlData)
    ensures
        final(data)@ == old(data)@.map_values(|r: (Seq<char>, Seq<char>)| aktualisiert(r)),
{
    let eins = "1";
    let neu = "UpdatedValue";
    proof {
        reveal_strlit("1");
        reveal_strlit("UpdatedValue");
    }
    let ghost alt = data@;
    let mut records: Vec<Record> = Vec::new();
    std::mem::swap(&mut records, &mut data.records);
    assert(records@.map_values(|r: Record| (r.id@, r.value@)) == alt);
    let mut ergebnis: Vec<Record> = Vec::new();
    let mut i: usize = 0;
    while i < records.len()
        invariant
            alt == records@.map_values(|r: Record| (r.id@, r.value@)),
            eins@ == seq!['1'],
            neu@ == seq!['U', 'p', 'd', 'a', 't', 'e', 'd', 'V', 'a', 'l', 'u', 'e'],
            i <= records@.len(),
            ergebnis@.len() == i,
            forall|j: int| 0 <= j < i ==> (#[trigger] ergebnis@[j]).id@ == aktualisiert(alt[j]).0
                && ergebnis@[j].value@ == aktualisiert(alt[j]).1,
        decreases records@.len() - i,
    {
        let r = &records[i];
        let id = r.id.clone();
        let ist_eins = bytes_gleich(r.id.as_str().as_bytes(), eins.as_bytes());
        proof {
            lemma_kodierung_injektiv(r.id@, eins@);
        }
        let value = if ist_eins { String::from_str(neu) } else { r.value.clone() };
        ergebnis.push(Record { id, value });
        i = i + 1;
    }
    data.records = ergebnis;
    assert(data@ =~= alt.map_values(|r: (Seq<char>, Seq<char>)| aktualisiert(r)));
}

} // verus!
