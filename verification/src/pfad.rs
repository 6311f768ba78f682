//! Pfade als Zeichenfolgen: Bestandteile, Dateiname, Stamm und Endung,
//! Verbinden, wie `std::path` sie unter Unix versteht (Trenner `/`).

use vstd::prelude::*;
use vstd::string::{StrSliceExecFns, StringExecFns};

verus! {

/// Der erste Index von `c` in `s`.
pub open spec fn erstes(s: Seq<char>, c: char) -> Option<int>
    decreases s.len(),
{
    if s.len() == 0 {
        None
    } else if s[0] == c {
        Some(0)
    } else {
        match erstes(s.drop_first(), c) {
            Some(i) => Some(i + 1),
            None => None,
        }
    }
}

/// Der letzte Index von `c` in `s`.
pub open spec fn letztes(s: Seq<char>, c: char) -> Option<int>
    decreases s.len(),
{
    if s.len() == 0 {
        None
    } else if s.last() == c {
        Some(s.len() - 1)
    } else {
        letztes(s.drop_last(), c)
    }
}

pub proof fn lemma_erstes(s: Seq<char>, c: char)
    ensures
        match erstes(s, c) {
            Some(i) => 0 <= i < s.len() && s[i] == c && forall|j: int| 0 <= j < i ==> s[j] != c,
            None => forall|j: int| 0 <= j < s.len() ==> s[j] != c,
        },
    decreases s.len(),
{
    if s.len() > 0 {
        lemma_erstes(s.drop_first(), c);
        if s[0] != c {
            match erstes(s.drop_first(), c) {
                Some(i) => {
                    assert forall|j: int| 0 <= j < i + 1 implies s[j] != c by {
                        if j > 0 {
                            assert(s[j] == s.drop_first()[j - 1]);
                        }
                    }
                },
                None => {
                    assert forall|j: int| 0 <= j < s.len() implies s[j] != c by {
                        if j > 0 {
                            assert(s[j] == s.drop_first()[j - 1]);
                        }
                    }
                },
            }
        }
    }
}

pub proof fn lemma_erstes_eindeutig(s: Seq<char>, c: char, k: int)
    requires
        0 <= k <= s.len(),
        forall|j: int| 0 <= j < k ==> s[j] != c,
        k < s.len() ==> s[k] == c,
    ensures
        erstes(s, c) == (if k < s.len() { Some(k) } else { None::<int> }),
{
    lemma_erstes(s, c);
}

pub proof fn lemma_letztes(s: Seq<char>, c: char)
    ensures
        match letztes(s, c) {
            Some(i) => 0 <= i < s.len() && s[i] == c && forall|j: int| i < j < s.len() ==> s[j] != c,
            None => forall|j: int| 0 <= j < s.len() ==> s[j] != c,
        },
    decreases s.len(),
{
    if s.len() > 0 {
        lemma_letztes(s.drop_last(), c);
        assert forall|j: int| 0 <= j < s.len() - 1 implies s.drop_last()[j] == s[j] by {}
    }
}

pub proof fn lemma_letztes_eindeutig(s: Seq<char>, c: char, k: int)
    requires
        -1 <= k < s.len(),
        forall|j: int| k < j < s.len() ==> s[j] != c,
        k >= 0 ==> s[k] == c,
    ensures
        letztes(s, c) == (if k >= 0 { Some(k) } else { None::<int> }),
{
    lemma_letztes(s, c);
}

/// Sucht `c` in `s[von..bis]`; der Index ist absolut.
pub fn erstes_in(s: &str, von: usize, bis: usize, c: char) -> (res: Option<usize>)
    requires
        von <= bis <= s@.len(),
    ensures
        match erstes(s@.subrange(von as int, bis as int), c) {
            Some(i) => res == Some((von + i) as usize),
            None => res is None,
        },
{
    let ghost t = s@.subrange(von as int, bis as int);
    let mut i = von;
    while i < bis
        invariant
            von <= i <= bis <= s@.len(),
            t == s@.subrange(von as int, bis as int),
            forall|j: int| 0 <= j < i - von ==> t[j] != c,
        decreases bis - i,
    {
        if s.get_char(i) == c {
            proof {
                lemma_erstes_eindeutig(t, c, i - von);
            }
            return Some(i);
        }
        i = i + 1;
    }
    proof {
        lemma_erstes_eindeutig(t, c, t.len() as int);
    }
    None
}

/// Sucht das letzte `c` in `s[..bis]`.
pub fn letztes_in(s: &str, bis: usize, c: char) -> (res: Option<usize>)
    requires
        bis <= s@.len(),
    ensures
        match letztes(s@.subrange(0, bis as int), c) {
            Some(i) => res == Some(i as usize),
            None => res is None,
        },
{
    let ghost t = s@.subrange(0, bis as int);
    let mut i = bis;
    while i > 0
        invariant
            i <= bis <= s@.len(),
            t == s@.subrange(0, bis as int),
            forall|j: int| i <= j < bis ==> t[j] != c,
        decreases i,
    {
        if s.get_char(i - 1) == c {
            proof {
                lemma_letztes_eindeutig(t, c, i - 1);
            }
            return Some(i - 1);
        }
        i = i - 1;
    }
    proof {
        lemma_letztes_eindeutig(t, c, -1);
    }
    None
}

/// Der Schlüssel eines Pfadbestandteils: steht das erste `+` vor dem ersten
/// `{` und dieses vor dem ersten `}`, was zwischen `{` und `}` steht.
pub open spec fn kennzeichen_teil(t: Seq<char>) -> Option<Seq<char>> {
    match (erstes(t, '+'), erstes(t, '{'), erstes(t, '}')) {
        (Some(p), Some(o), Some(c)) => if p < o && o < c {
            Some(t.subrange(o + 1, c))
        } else {
            None
        },
        _ => None,
    }
}

/// Der Schlüssel des ersten Bestandteils (zwischen `/`), der einen hat.
pub open spec fn kennzeichen_spec(p: Seq<char>) -> Option<Seq<char>>
    decreases p.len(),
{
    match erstes(p, '/') {
        None => kennzeichen_teil(p),
        Some(i) => {
            proof {
                lemma_erstes(p, '/');
            }
            match kennzeichen_teil(p.subrange(0, i)) {
                Some(k) => Some(k),
                None => kennzeichen_spec(p.subrange(i + 1, p.len() as int)),
            }
        },
    }
}

pub fn kennzeichen_teil_von(s: &str, von: usize, bis: usize) -> (res: Option<String>)
    requires
        von <= bis <= s@.len(),
    ensures
        match kennzeichen_teil(s@.subrange(von as int, bis as int)) {
            Some(k) => res matches Some(r) && r@ == k,
            None => res is None,
        },
{
    let ghost t = s@.subrange(von as int, bis as int);
    let p = erstes_in(s, von, bis, '+');
    let o = erstes_in(s, von, bis, '{');
    let c = erstes_in(s, von, bis, '}');
    proof {
        lemma_erstes(t, '+');
        lemma_erstes(t, '{');
        lemma_erstes(t, '}');
    }
    match (p, o, c) {
        (Some(p), Some(o), Some(c)) => {
            if p < o && o < c {
                proof {
                    lemma_erstes(t, '+');
                    lemma_erstes(t, '{');
                    lemma_erstes(t, '}');
                }
                let k = s.substring_char(o + 1, c);
                assert(k@ =~= t.subrange(o - von + 1, c - von));
                Some(String::from_str(k))
            } else {
                None
            }
        },
        _ => None,
    }
}

/// Der Zeichenbereich des letzten Bestandteils, der weder leer noch `.` ist
/// (nachgestellte `/` und `/.` zählen nicht).
pub open spec fn letzter_teil(p: Seq<char>) -> Option<(int, int)>
    decreases p.len(),
{
    match letztes(p, '/') {
        None => if p.len() > 0 && p != seq!['.'] {
            Some((0, p.len() as int))
        } else {
            None
        },
        Some(j) => {
            proof {
                lemma_letztes(p, '/');
            }
            let t = p.subrange(j + 1, p.len() as int);
            if t.len() > 0 && t != seq!['.'] {
                Some((j + 1, p.len() as int))
            } else {
                letzter_teil(p.subrange(0, j))
            }
        },
    }
}

pub proof fn lemma_letzter_teil(p: Seq<char>)
    ensures
        letzter_teil(p) matches Some((a, b)) ==> 0 <= a < b <= p.len(),
    decreases p.len(),
{
    lemma_letztes(p, '/');
    if let Some(j) = letztes(p, '/') {
        lemma_letzter_teil(p.subrange(0, j));
    }
}

/// Der Bereich des Dateinamens: der letzte Bestandteil, wenn er nicht `..` ist.
pub open spec fn dateiname_bereich(p: Seq<char>) -> Option<(int, int)> {
    match letzter_teil(p) {
        Some((a, b)) => if p.subrange(a, b) == seq!['.', '.'] {
            None
        } else {
            Some((a, b))
        },
        None => None,
    }
}

/// Die Länge des Stamms eines Dateinamens: bis zum letzten `.`, außer dieser
/// steht ganz vorn oder fehlt.
pub open spec fn stamm_laenge(n: Seq<char>) -> int {
    match letztes(n, '.') {
        Some(d) => if d > 0 { d } else { n.len() as int },
        None => n.len() as int,
    }
}

/// Die Endung eines Dateinamens: was nach dem letzten `.` steht, außer dieser
/// steht ganz vorn oder fehlt.
pub open spec fn endung_von(n: Seq<char>) -> Option<Seq<char>> {
    match letztes(n, '.') {
        Some(d) => if d > 0 { Some(n.subrange(d + 1, n.len() as int)) } else { None },
        None => None,
    }
}

/// `Path::file_stem`.
pub open spec fn dateistamm(p: Seq<char>) -> Option<Seq<char>> {
    match dateiname_bereich(p) {
        Some((a, b)) => Some(p.subrange(a, a + stamm_laenge(p.subrange(a, b)))),
        None => None,
    }
}

/// `Path::extension`.
pub open spec fn endung(p: Seq<char>) -> Option<Seq<char>> {
    match dateiname_bereich(p) {
        Some((a, b)) => endung_von(p.subrange(a, b)),
        None => None,
    }
}

/// `PathBuf::set_extension(neu)` für einen Pfad mit Dateinamen: alles nach dem
/// Stamm fällt weg, eine nicht leere neue Endung kommt mit `.` dazu.
pub open spec fn mit_endung(p: Seq<char>, neu: Seq<char>) -> Seq<char> {
    match dateiname_bereich(p) {
        Some((a, b)) => {
            let vorn = p.subrange(0, a + stamm_laenge(p.subrange(a, b)));
            if neu.len() > 0 { vorn + seq!['.'] + neu } else { vorn }
        },
        None => p,
    }
}

/// `Path::join` unter Unix: ein absoluter Teil ersetzt den Pfad, sonst kommt
/// er nach einem `/` dazu (wenn der Pfad nicht leer ist und nicht auf `/`
/// endet).
pub open spec fn verbunden(basis: Seq<char>, teil: Seq<char>) -> Seq<char> {
    if teil.len() > 0 && teil[0] == '/' {
        teil
    } else if basis.len() == 0 || basis.last() == '/' {
        basis + teil
    } else {
        basis + seq!['/'] + teil
    }
}

/// Verbindet zwei Pfade wie `Path::join`.
pub fn verbinden(basis: &str, teil: &str) -> (res: String)
    ensures
        res@ == verbunden(basis@, teil@),
{
    let nt = teil.unicode_len();
    let nb = basis.unicode_len();
    if nt > 0 && teil.get_char(0) == '/' {
        return String::from_str(teil);
    }
    let mut res = String::from_str(basis);
    if !(nb == 0 || basis.get_char(nb - 1) == '/') {
        let schraeg = "/";
        proof {
            reveal_strlit("/");
        }
        res.append(schraeg);
    }
    res.append(teil);
    res
}

/// Sucht den Bereich des letzten Bestandteils, der weder leer noch `.` ist.
fn letzter_teil_von(p: &str) -> (res: Option<(usize, usize)>)
    ensures
        match res {
            Some((a, b)) => letzter_teil(p@) == Some((a as int, b as int)) && a < b <= p@.len(),
            None => letzter_teil(p@) is None,
        },
{
    proof {
        lemma_letzter_teil(p@);
    }
    let n = p.unicode_len();
    let mut bis = n;
    assert(p@.subrange(0, n as int) =~= p@);
    loop
        invariant
            n == p@.len(),
            bis <= n,
            letzter_teil(p@) == letzter_teil(p@.subrange(0, bis as int)),
        decreases bis,
    {
        let ghost q = p@.subrange(0, bis as int);
        proof {
            lemma_letztes(q, '/');
        }
        match letztes_in(p, bis, '/') {
            None => {
                if bis > 0 && !(bis == 1 && p.get_char(0) == '.') {
                    assert(q != seq!['.'] ==> true);
                    proof {
                        if q =~= seq!['.'] {
                            assert(q[0] == '.');
                        }
                    }
                    return Some((0, bis));
                }
                proof {
                    if bis == 1 {
                        assert(q =~= seq!['.']);
                    }
                }
                return None;
            },
            Some(j) => {
                let ghost t = q.subrange(j + 1, bis as int);
                assert(t =~= p@.subrange(j + 1, bis as int));
                if bis > j + 1 && !(bis == j + 2 && p.get_char(j + 1) == '.') {
                    proof {
                        if t =~= seq!['.'] {
                            assert(t[0] == '.');
                        }
                    }
                    return Some((j + 1, bis));
                }
                proof {
                    if bis == j + 2 {
                        assert(t =~= seq!['.']);
                    }
                    assert(q.subrange(0, j as int) =~= p@.subrange(0, j as int));
                }
                bis = j;
            },
        }
    }
}

/// Der Bereich des Dateinamens.
fn dateiname_bereich_von(p: &str) -> (res: Option<(usize, usize)>)
    ensures
        match res {
            Some((a, b)) => dateiname_bereich(p@) == Some((a as int, b as int)) && a < b <= p@.len(),
            None => dateiname_bereich(p@) is None,
        },
{
    proof {
        lemma_letzter_teil(p@);
    }
    match letzter_teil_von(p) {
        None => None,
        Some((a, b)) => {
            if b - a == 2 && p.get_char(a) == '.' && p.get_char(a + 1) == '.' {
                assert(p@.subrange(a as int, b as int) =~= seq!['.', '.']);
                None
            } else {
                proof {
                    if p@.subrange(a as int, b as int) =~= seq!['.', '.'] {
                        assert(p@.subrange(a as int, b as int)[0] == '.');
                        assert(p@.subrange(a as int, b as int)[1] == '.');
                    }
                }
                Some((a, b))
            }
        },
    }
}

/// Die Stammlänge des Dateinamens `p[a..b]`.
fn stamm_laenge_von(p: &str, a: usize, b: usize) -> (res: usize)
    requires
        a < b <= p@.len(),
    ensures
        res == stamm_laenge(p@.subrange(a as int, b as int)),
        res <= b - a,
{
    let ghost n = p@.subrange(a as int, b as int);
    let name = p.substring_char(a, b);
    proof {
        lemma_letztes(n, '.');
    }
    match letztes_in(name, b - a, '.') {
        Some(d) => {
            assert(name@.subrange(0, (b - a) as int) =~= n);
            if d > 0 { d } else { b - a }
        },
        None => {
            assert(name@.subrange(0, (b - a) as int) =~= n);
            b - a
        },
    }
}

/// `Path::file_stem`.
pub fn dateistamm_von(p: &str) -> (res: Option<String>)
    ensures
        match dateistamm(p@) {
            Some(s) => res matches Some(r) && r@ == s,
            None => res is None,
        },
{
    match dateiname_bereich_von(p) {
        None => None,
        Some((a, b)) => {
            let l = stamm_laenge_von(p, a, b);
            Some(String::from_str(p.substring_char(a, a + l)))
        },
    }
}

/// `Path::extension`.
pub fn endung_von_pfad(p: &str) -> (res: Option<String>)
    ensures
        match endung(p@) {
            Some(s) => res matches Some(r) && r@ == s,
            None => res is None,
        },
{
    match dateiname_bereich_von(p) {
        None => None,
        Some((a, b)) => {
            let ghost n = p@.subrange(a as int, b as int);
            let name = p.substring_char(a, b);
            proof {
                lemma_letztes(n, '.');
            }
            match letztes_in(name, b - a, '.') {
                Some(d) => {
                    assert(name@.subrange(0, (b - a) as int) =~= n);
                    if d > 0 {
                        assert(p@.subrange(a + d + 1, b as int) =~= n.subrange(d + 1, n.len() as int));
                        Some(String::from_str(p.substring_char(a + d + 1, b)))
                    } else {
                        None
                    }
                },
                None => {
                    assert(name@.subrange(0, (b - a) as int) =~= n);
                    None
                },
            }
        },
    }
}

/// `PathBuf::set_extension(neu)`.
pub fn endung_setzen(p: &str, neu: &str) -> (res: String)
    ensures
        res@ == mit_endung(p@, neu@),
{
    match dateiname_bereich_von(p) {
        None => String::from_str(p),
        Some((a, b)) => {
            let l = stamm_laenge_von(p, a, b);
            let mut res = String::from_str(p.substring_char(0, a + l));
            if neu.unicode_len() > 0 {
                let punkt = ".";
                proof {
                    reveal_strlit(".");
                }
                res.append(punkt);
                res.append(neu);
            }
            res
        },
    }
}

/// `endung_mit_sprache_erweitern`: mit einer Sprache `l` wird aus der Endung
/// `e` eines Pfads mit Dateinamen `l.e` (`post.md` → `post.fr.md`); ohne
/// Sprache oder ohne Endung bleibt der Pfad.
pub open spec fn mit_sprache(p: Seq<char>, sprache: Option<Seq<char>>) -> Seq<char> {
    match sprache {
        Some(l) => match endung(p) {
            Some(e) => mit_endung(p, l + seq!['.'] + e),
            None => p,
        },
        None => p,
    }
}

/// Erweitert die Endung eines Pfads um die Sprache: `post.md` mit `fr` wird
/// zu `post.fr.md`. Ohne Sprache oder ohne Endung bleibt der Pfad, wie er ist.
/// Die Sprache darf kein `/` enthalten (`set_extension` bricht sonst ab).
pub fn endung_mit_sprache_erweitern(path: &str, language: Option<&String>) -> (res: String)
    requires
        language matches Some(l) ==> !l@.contains('/'),
    ensures
        res@ == mit_sprache(path@, match language { Some(l) => Some(l@), None => None }),
{
    match language {
        None => String::from_str(path),
        Some(lang) => match endung_von_pfad(path) {
            None => String::from_str(path),
            Some(ext) => {
                let mut neu = String::from_str(lang.as_str());
                let punkt = ".";
                proof {
                    reveal_strlit(".");
                }
                neu.append(punkt);
                neu.append(ext.as_str());
                endung_setzen(path, neu.as_str())
            },
        },
    }
}

/// Dasselbe wie [`endung_mit_sprache_erweitern`], unter dem Namen, den die
/// Seitenverarbeitung verwendet.
pub fn extend_extension_with_language(path: &str, language: Option<&String>) -> (res: String)
    requires
        language matches Some(l) ==> !l@.contains('/'),
    ensures
        res@ == mit_sprache(path@, match language { Some(l) => Some(l@), None => None }),
{
    endung_mit_sprache_erweitern(path, language)
}

/// Die Zahl der UTF-8-Bytes einer Zeichenfolge.
pub open spec fn byte_laenge(s: Seq<char>) -> nat {
    vstd::utf8::encode_utf8(s).len()
}

/// `collection_name`: im Dateistamm das erste `{` und das erste `}`; steht
/// `{` vor `}`, aber nicht ganz vorn, und ist das Zeichen an der Zeichenposition, die der
/// Byteposition des `{` minus eins entspricht, ein `+`, dann der Text
/// zwischen den Klammern.
pub open spec fn sammlungsname(p: Seq<char>) -> Option<Seq<char>> {
    match dateistamm(p) {
        None => None,
        Some(stamm) => match (erstes(stamm, '{'), erstes(stamm, '}')) {
            (Some(start), Some(ende)) => {
                let k = byte_laenge(stamm.subrange(0, start)) - 1;
                if start < ende && start > 0 && k < stamm.len() && stamm[k] == '+' {
                    Some(stamm.subrange(start + 1, ende))
                } else {
                    None
                }
            },
            _ => None,
        },
    }
}

/// Eine nicht leere Zeichenfolge hat mindestens ein UTF-8-Byte.
pub proof fn lemma_kodierung_nicht_leer(s: Seq<char>)
    requires
        s.len() > 0,
    ensures
        vstd::utf8::encode_utf8(s).len() > 0,
{
    vstd::utf8::encode_utf8_decode_utf8(s);
}

/// `s.replace(muster, neu)` für ein nicht leeres Muster: von links nach rechts
/// wird jedes nicht überlappende Vorkommen ersetzt.
pub open spec fn ersetzt(s: Seq<char>, muster: Seq<char>, neu: Seq<char>) -> Seq<char>
    decreases s.len(),
{
    if muster.len() == 0 || s.len() < muster.len() {
        s
    } else if s.subrange(0, muster.len() as int) == muster {
        neu + ersetzt(s.subrange(muster.len() as int, s.len() as int), muster, neu)
    } else {
        seq![s[0]] + ersetzt(s.drop_first(), muster, neu)
    }
}

/// Ob `muster` in `s` an der Zeichenposition `i` beginnt.
fn beginnt_mit_an(s: &str, i: usize, muster: &str) -> (res: bool)
    requires
        i <= s@.len(),
    ensures
        res == (i + muster@.len() <= s@.len() && s@.subrange(i as int, i + muster@.len()) == muster@),
{
    let n = s.unicode_len();
    let m = muster.unicode_len();
    if m > n - i {
        return false;
    }
    let mut j: usize = 0;
    while j < m
        invariant
            n == s@.len(),
            m == muster@.len(),
            i + m <= n,
            j <= m,
            forall|k: int| 0 <= k < j ==> s@[i + k] == muster@[k],
        decreases m - j,
    {
        if s.get_char(i + j) != muster.get_char(j) {
            assert(s@.subrange(i as int, i + m)[j as int] != muster@[j as int]);
            return false;
        }
        j = j + 1;
    }
    assert(s@.subrange(i as int, i + m) =~= muster@);
    true
}

/// Ersetzt wie `str::replace` jedes Vorkommen eines nicht leeren Musters.
pub fn ersetzen(s: &str, muster: &str, neu: &str) -> (res: String)
    requires
        muster@.len() > 0,
    ensures
        res@ == ersetzt(s@, muster@, neu@),
{
    let n = s.unicode_len();
    let m = muster.unicode_len();
    let mut res = String::new();
    let mut i: usize = 0;
    assert(s@.subrange(0, n as int) =~= s@);
    assert(res@ + ersetzt(s@, muster@, neu@) =~= ersetzt(s@, muster@, neu@));
    while i < n
        invariant
            n == s@.len(),
            m == muster@.len(),
            m > 0,
            i <= n,
            ersetzt(s@, muster@, neu@) == res@ + ersetzt(s@.subrange(i as int, n as int), muster@, neu@),
        decreases n - i,
    {
        let ghost rest = s@.subrange(i as int, n as int);
        if beginnt_mit_an(s, i, muster) {
            assert(rest.subrange(0, m as int) =~= s@.subrange(i as int, i + m));
            assert(rest.subrange(m as int, rest.len() as int) =~= s@.subrange(i + m, n as int));
            let ghost alt = res@;
            res.append(neu);
            assert(res@ + ersetzt(s@.subrange(i + m, n as int), muster@, neu@)
                =~= alt + ersetzt(rest, muster@, neu@));
            i = i + m;
        } else {
            proof {
                if m <= n - i {
                    assert(rest.subrange(0, m as int) =~= s@.subrange(i as int, i + m));
                }
            }
            assert(rest.drop_first() =~= s@.subrange(i + 1, n as int));
            let ghost alt = res@;
            let zeichen = s.substring_char(i, i + 1);
            assert(zeichen@ =~= seq![rest[0]]);
            res.append(zeichen);
            assert(res@ + ersetzt(s@.subrange(i + 1, n as int), muster@, neu@)
                =~= alt + ersetzt(rest, muster@, neu@));
            i = i + 1;
        }
    }
    assert(ersetzt(s@.subrange(n as int, n as int), muster@, neu@) =~= Seq::<char>::empty());
    assert(res@ + Seq::<char>::empty() =~= res@);
    res
}

} // verus!
