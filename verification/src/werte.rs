//! Werte einer Datenbankzeile als Text: so, wie sie in einen [`Datensatz`]
//! eingetragen werden.

use vstd::prelude::*;
use vstd::utf8::*;
use vstd::string::{StringExecFns, StringSliceAdditionalSpecFns};
use crate::tabular::Datensatz;

verus! {

/// Ein Wert einer Datenbankspalte. Eine Gleitkommazahl steht schon als Text
/// da (so, wie Rust sie mit `to_string` schreibt).
#[derive(Debug)]
pub enum SqlWert {
    Null,
    Ganzzahl(i64),
    Gleitkomma(String),
    Text(Vec<u8>),
    Blob(Vec<u8>),
}

/// Das Ergebnis von `String::from_utf8_lossy`: die Bytes als UTF-8, jede
/// ungültige Folge durch U+FFFD ersetzt.
pub uninterp spec fn utf8_verlustbehaftet(bytes: Seq<u8>) -> Seq<char>;

/// `String::from_utf8_lossy(b).into_owned()`. Vertrag: das Ergebnis ist
/// `utf8_verlustbehaftet(b)`, und für gültiges UTF-8 sind das genau die
/// kodierten Zeichen (so sagt es die Dokumentation von std).
#[verifier::external_body]
fn text_verlustbehaftet(b: &[u8]) -> (res: String)
    ensures
        res@ == utf8_verlustbehaftet(b@),
        valid_utf8(b@) ==> res@ == decode_utf8(b@),
{
    String::from_utf8_lossy(b).into_owned()
}

/// Die Dezimalziffer `d` (0 bis 9) als Zeichen.
pub open spec fn ziffer(d: int) -> char {
    (48 + d) as char
}

/// Eine Hexadezimalziffer (0 bis 15), klein geschrieben.
pub open spec fn hex_ziffer(d: int) -> char {
    if d < 10 { (48 + d) as char } else { (87 + d) as char }
}

/// Die Dezimaldarstellung einer natürlichen Zahl, ohne führende Nullen.
pub open spec fn ziffern(n: nat) -> Seq<char>
    decreases n,
{
    if n < 10 {
        seq![ziffer(n as int)]
    } else {
        ziffern(n / 10).push(ziffer((n % 10) as int))
    }
}

/// Die Dezimaldarstellung einer ganzen Zahl, wie `to_string` sie schreibt.
pub open spec fn dezimal(v: int) -> Seq<char> {
    if v < 0 {
        seq!['-'] + ziffern((-v) as nat)
    } else {
        ziffern(v as nat)
    }
}

/// Jedes Byte als zwei kleine Hexadezimalziffern, wie `format!("{:02x}", b)`.
pub open spec fn hex(bytes: Seq<u8>) -> Seq<char>
    decreases bytes.len(),
{
    if bytes.len() == 0 {
        Seq::empty()
    } else {
        hex(bytes.drop_last()) + seq![hex_ziffer((bytes.last() / 16) as int), hex_ziffer((bytes.last() % 16) as int)]
    }
}

/// Der Text eines Datenbankwerts.
pub open spec fn wert_text(w: SqlWert) -> Seq<char> {
    match w {
        SqlWert::Null => seq!['n', 'u', 'l', 'l'],
        SqlWert::Ganzzahl(v) => dezimal(v as int),
        SqlWert::Gleitkomma(t) => t@,
        SqlWert::Text(b) => utf8_verlustbehaftet(b@),
        SqlWert::Blob(b) => hex(b@),
    }
}

/// Hängt die Hexadezimalziffer `d` an.
fn hex_anhaengen(res: &mut String, d: u8)
    requires
        d < 16,
    ensures
        final(res)@ == old(res)@.push(hex_ziffer(d as int)),
{
    let zeichen = "0123456789abcdef";
    proof {
        reveal_strlit("0123456789abcdef");
    }
    let dz = d as usize;
    let teil = zeichen.substring_char(dz, dz + 1);
    assert(teil@ =~= seq![hex_ziffer(d as int)]);
    res.append(teil);
}

/// Hängt die Dezimaldarstellung von `n` an.
fn ziffern_anhaengen(res: &mut String, n: u64)
    ensures
        final(res)@ == old(res)@ + ziffern(n as nat),
    decreases n,
{
    if n >= 10 {
        ziffern_anhaengen(res, n / 10);
    }
    let d = (n % 10) as u8;
    let ghost vor = res@;
    hex_anhaengen(res, d);
    proof {
        if n >= 10 {
            assert(ziffern(n as nat) == ziffern((n / 10) as nat).push(ziffer((n % 10) as int)));
        }
    }
    assert(res@ =~= old(res)@ + ziffern(n as nat));
}

/// `v.to_string()` für eine Ganzzahl.
pub fn dezimal_text(v: i64) -> (res: String)
    ensures
        res@ == dezimal(v as int),
{
    let mut res = String::new();
    if v < 0 {
        let minus = "-";
        proof {
            reveal_strlit("-");
        }
        res.append(minus);
        let betrag: u64 = (0i128 - (v as i128)) as u64;
        ziffern_anhaengen(&mut res, betrag);
    } else {
        ziffern_anhaengen(&mut res, v as u64);
    }
    res
}

/// Jedes Byte als zwei kleine Hexadezimalziffern, aneinandergehängt.
pub fn hex_text(b: &[u8]) -> (res: String)
    ensures
        res@ == hex(b@),
{
    let mut res = String::new();
    let mut i: usize = 0;
    assert(b@.take(0) =~= Seq::<u8>::empty());
    while i < b.len()
        invariant
            i <= b@.len(),
            res@ == hex(b@.take(i as int)),
        decreases b@.len() - i,
    {
        assert(b@.take(i + 1).drop_last() =~= b@.take(i as int));
        let x = b[i];
        hex_anhaengen(&mut res, x / 16);
        hex_anhaengen(&mut res, x % 16);
        i = i + 1;
    }
    assert(b@.take(i as int) =~= b@);
    res
}

/// Der Text eines Datenbankwerts: `null`, die Dezimalzahl, der Text der
/// Gleitkommazahl, der Text (ungültiges UTF-8 ersetzt) oder die Bytes
/// hexadezimal.
pub fn wert_als_text(w: &SqlWert) -> (res: String)
    ensures
        res@ == wert_text(*w),
{
    match w {
        SqlWert::Null => {
            let t = "null";
            proof {
                reveal_strlit("null");
            }
            String::from_str(t)
        },
        SqlWert::Ganzzahl(v) => dezimal_text(*v),
        SqlWert::Gleitkomma(t) => t.clone(),
        SqlWert::Text(b) => text_verlustbehaftet(b.as_slice()),
        SqlWert::Blob(b) => hex_text(b.as_slice()),
    }
}

/// Der Datensatz einer Datenbankzeile: Spalte `i` bekommt den Text von
/// Wert `i`. Hat die Zeile weniger Werte als Spalten, gibt es keinen.
pub fn row_to_hashmap(columns: &Vec<String>, werte: &Vec<SqlWert>) -> (res: Option<Datensatz>)
    ensures
        res is Some <==> columns@.len() <= werte@.len(),
        res matches Some(d) ==> d@ == Seq::new(columns@.len(), |i: int| (columns@[i]@, wert_text(werte@[i]))),
{
    if werte.len() < columns.len() {
        return None;
    }
    let mut felder: Vec<(String, String)> = Vec::new();
    let mut i: usize = 0;
    while i < columns.len()
        invariant
            columns@.len() <= werte@.len(),
            i <= columns@.len(),
            felder@.len() == i,
            forall|j: int| 0 <= j < i ==> (#[trigger] felder@[j]).0@ == columns@[j]@ && felder@[j].1@ == wert_text(werte@[j]),
        decreases columns@.len() - i,
    {
        let k = columns[i].clone();
        let w = wert_als_text(&werte[i]);
        felder.push((k, w));
        i = i + 1;
    }
    let d = Datensatz { felder };
    assert(d@ =~= Seq::new(columns@.len(), |i: int| (columns@[i]@, wert_text(werte@[i]))));
    Some(d)
}

} // verus!
