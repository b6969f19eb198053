//! Operaciones sobre texto con su significado matemático: recorte de
//! espacios, partición por separadores, reemplazo de caracteres,
//! lectura y escritura de enteros decimales.
use vstd::prelude::*;

verus! {

/// La propiedad Unicode `White_Space`, la que usa `char::is_whitespace`.
pub open spec fn es_espacio(c: char) -> bool {
    ||| ('\u{9}' <= c && c <= '\u{d}')
    ||| c == ' '
    ||| c == '\u{85}'
    ||| c == '\u{a0}'
    ||| c == '\u{1680}'
    ||| ('\u{2000}' <= c && c <= '\u{200a}')
    ||| c == '\u{2028}'
    ||| c == '\u{2029}'
    ||| c == '\u{202f}'
    ||| c == '\u{205f}'
    ||| c == '\u{3000}'
}

/// Decide si `c` es un espacio en blanco Unicode.
pub fn espacio(c: char) -> (r: bool)
    ensures
        r == es_espacio(c),
{
    ('\u{9}' <= c && c <= '\u{d}') || c == ' ' || c == '\u{85}' || c == '\u{a0}' || c == '\u{1680}'
        || ('\u{2000}' <= c && c <= '\u{200a}') || c == '\u{2028}' || c == '\u{2029}' || c
        == '\u{202f}' || c == '\u{205f}' || c == '\u{3000}'
}

/// `s` sin los espacios iniciales.
pub open spec fn sin_espacios_iniciales(s: Seq<char>) -> Seq<char>
    decreases s.len(),
{
    if s.len() > 0 && es_espacio(s[0]) {
        sin_espacios_iniciales(s.drop_first())
    } else {
        s
    }
}

/// `s` sin los espacios finales.
pub open spec fn sin_espacios_finales(s: Seq<char>) -> Seq<char>
    decreases s.len(),
{
    if s.len() > 0 && es_espacio(s.last()) {
        sin_espacios_finales(s.drop_last())
    } else {
        s
    }
}

/// `s` sin espacios al principio ni al final (lo que hace `str::trim`).
pub open spec fn recorte(s: Seq<char>) -> Seq<char> {
    sin_espacios_finales(sin_espacios_iniciales(s))
}

/// Copia `s` en un `String` nuevo.
pub fn copiar(s: &str) -> (r: String)
    ensures
        r@ == s@,
{
    s.to_owned()
}

/// Los caracteres `[desde, hasta)` de `s` en un `String` nuevo.
pub fn subcadena(s: &str, desde: usize, hasta: usize) -> (r: String)
    requires
        desde <= hasta <= s@.len(),
    ensures
        r@ == s@.subrange(desde as int, hasta as int),
{
    s.substring_char(desde, hasta).to_owned()
}

/// Recorta los espacios de ambos extremos de `s`.
pub fn recortar(s: &str) -> (r: String)
    ensures
        r@ == recorte(s@),
{
    let n = s.unicode_len();
    let mut a: usize = 0;
    assert(s@.skip(0) =~= s@);
    while a < n && espacio(s.get_char(a))
        invariant
            a <= n,
            n == s@.len(),
            sin_espacios_iniciales(s@) == sin_espacios_iniciales(s@.skip(a as int)),
        decreases n - a,
    {
        assert(s@.skip(a as int).drop_first() =~= s@.skip(a + 1));
        a = a + 1;
    }
    assert(sin_espacios_iniciales(s@) == s@.subrange(a as int, n as int)) by {
        assert(s@.skip(a as int) =~= s@.subrange(a as int, n as int));
    }
    let mut b: usize = n;
    while b > a && espacio(s.get_char(b - 1))
        invariant
            a <= b <= n,
            n == s@.len(),
            sin_espacios_finales(s@.subrange(a as int, n as int)) == sin_espacios_finales(
                s@.subrange(a as int, b as int),
            ),
        decreases b,
    {
        assert(s@.subrange(a as int, b as int).drop_last() =~= s@.subrange(a as int, b - 1));
        b = b - 1;
    }
    subcadena(s, a, b)
}

/// Compara dos textos carácter a carácter.
pub fn iguales(a: &str, b: &str) -> (r: bool)
    ensures
        r == (a@ == b@),
{
    let n = a.unicode_len();
    if n != b.unicode_len() {
        return false;
    }
    let mut i: usize = 0;
    while i < n
        invariant
            i <= n,
            n == a@.len(),
            n == b@.len(),
            forall|j: int| 0 <= j < i ==> a@[j] == b@[j],
        decreases n - i,
    {
        if a.get_char(i) != b.get_char(i) {
            return false;
        }
        i = i + 1;
    }
    assert(a@ =~= b@);
    true
}

/// `p` es prefijo de `s`.
pub open spec fn es_prefijo(p: Seq<char>, s: Seq<char>) -> bool {
    p.len() <= s.len() && s.take(p.len() as int) == p
}

/// Decide si `s` empieza con `p`.
pub fn empieza_con(s: &str, p: &str) -> (r: bool)
    ensures
        r == es_prefijo(p@, s@),
{
    let n = p.unicode_len();
    if n > s.unicode_len() {
        return false;
    }
    let mut i: usize = 0;
    while i < n
        invariant
            i <= n,
            n == p@.len(),
            n <= s@.len(),
            forall|j: int| 0 <= j < i ==> p@[j] == s@[j],
        decreases n - i,
    {
        if p.get_char(i) != s.get_char(i) {
            assert(s@.take(n as int)[i as int] != p@[i as int]);
            return false;
        }
        i = i + 1;
    }
    assert(s@.take(n as int) =~= p@);
    true
}

/// `s` empieza con el carácter `c`.
pub open spec fn empieza_con_caracter(s: Seq<char>, c: char) -> bool {
    s.len() > 0 && s[0] == c
}

/// Decide si `s` empieza con el carácter `c`.
pub fn empieza_con_letra(s: &str, c: char) -> (r: bool)
    ensures
        r == empieza_con_caracter(s@, c),
{
    s.unicode_len() > 0 && s.get_char(0) == c
}

/// Las clases de separador con que se parte un texto.
pub enum Separador {
    /// `','`
    Coma,
    /// `','` o `';'`
    ComaOPuntoYComa,
    /// `'-'`
    Guion,
    /// un espacio Unicode
    Espacio,
}

/// `c` separa trozos según `k`.
pub open spec fn es_separador(k: Separador, c: char) -> bool {
    match k {
        Separador::Coma => c == ',',
        Separador::ComaOPuntoYComa => c == ',' || c == ';',
        Separador::Guion => c == '-',
        Separador::Espacio => es_espacio(c),
    }
}

/// Decide si `c` separa trozos según `k`.
pub fn separa(k: &Separador, c: char) -> (r: bool)
    ensures
        r == es_separador(*k, c),
{
    match k {
        Separador::Coma => c == ',',
        Separador::ComaOPuntoYComa => c == ',' || c == ';',
        Separador::Guion => c == '-',
        Separador::Espacio => espacio(c),
    }
}

/// Los trozos de `s` entre separadores, vacíos incluidos (lo que da
/// `str::split`): con `n` separadores hay `n + 1` trozos.
pub open spec fn trozos(s: Seq<char>, k: Separador) -> Seq<Seq<char>>
    decreases s.len(),
{
    if s.len() == 0 {
        seq![Seq::empty()]
    } else {
        let p = trozos(s.drop_last(), k);
        if es_separador(k, s.last()) {
            p.push(Seq::empty())
        } else {
            p.update(p.len() - 1, p.last().push(s.last()))
        }
    }
}

/// Siempre hay al menos un trozo.
pub proof fn lema_trozos_no_vacio(s: Seq<char>, k: Separador)
    ensures
        trozos(s, k).len() >= 1,
    decreases s.len(),
{
    if s.len() > 0 {
        lema_trozos_no_vacio(s.drop_last(), k);
    }
}

/// Los elementos no vacíos de `p`, en orden.
pub open spec fn no_vacios(p: Seq<Seq<char>>) -> Seq<Seq<char>>
    decreases p.len(),
{
    if p.len() == 0 {
        p
    } else if p.last().len() > 0 {
        no_vacios(p.drop_last()).push(p.last())
    } else {
        no_vacios(p.drop_last())
    }
}

/// Cada elemento de `p` recortado.
pub open spec fn recortados(p: Seq<Seq<char>>) -> Seq<Seq<char>> {
    p.map_values(|x: Seq<char>| recorte(x))
}

/// Las palabras de `s` (lo que da `str::split_whitespace`).
pub open spec fn palabras(s: Seq<char>) -> Seq<Seq<char>> {
    no_vacios(trozos(s, Separador::Espacio))
}

/// Parte `s` en sus trozos según `k`.
pub fn partir(s: &str, k: &Separador) -> (r: Vec<String>)
    ensures
        r.deep_view() == trozos(s@, *k),
{
    let n = s.unicode_len();
    let mut res: Vec<String> = Vec::new();
    let mut ini: usize = 0;
    let mut i: usize = 0;
    assert(s@.take(0) =~= Seq::<char>::empty());
    assert(res.deep_view().push(s@.subrange(0, 0)) =~= seq![Seq::<char>::empty()]);
    while i < n
        invariant
            ini <= i <= n,
            n == s@.len(),
            trozos(s@.take(i as int), *k) == res.deep_view().push(s@.subrange(ini as int, i as int)),
        decreases n - i,
    {
        let c = s.get_char(i);
        let ghost antes = res.deep_view();
        assert(s@.take(i + 1).drop_last() =~= s@.take(i as int));
        assert(s@.take(i + 1).last() == c);
        if separa(k, c) {
            let t = subcadena(s, ini, i);
            let ghost viejo = ini;
            res.push(t);
            assert(res.deep_view() =~= antes.push(s@.subrange(ini as int, i as int)));
            ini = i + 1;
            assert(s@.subrange(ini as int, i + 1) =~= Seq::<char>::empty());
            assert(res.deep_view().push(s@.subrange(ini as int, i + 1)) =~= antes.push(
                s@.subrange(viejo as int, i as int),
            ).push(Seq::empty()));
        } else {
            assert(s@.subrange(ini as int, i + 1) =~= s@.subrange(ini as int, i as int).push(c));
            assert(res.deep_view().push(s@.subrange(ini as int, i + 1)) =~= antes.push(
                s@.subrange(ini as int, i as int),
            ).update(antes.len() as int, s@.subrange(ini as int, i as int).push(c)));
        }
        i = i + 1;
    }
    let ghost antes = res.deep_view();
    let t = subcadena(s, ini, n);
    res.push(t);
    assert(res.deep_view() =~= antes.push(s@.subrange(ini as int, n as int)));
    assert(s@.take(n as int) =~= s@);
    res
}

/// Deja en `p` sólo los textos no vacíos.
pub fn quitar_vacios(p: Vec<String>) -> (r: Vec<String>)
    ensures
        r.deep_view() == no_vacios(p.deep_view()),
{
    let mut res: Vec<String> = Vec::new();
    let mut i: usize = 0;
    assert(p.deep_view().take(0) =~= Seq::<Seq<char>>::empty());
    while i < p.len()
        invariant
            i <= p.len(),
            res.deep_view() == no_vacios(p.deep_view().take(i as int)),
        decreases p.len() - i,
    {
        let ghost antes = res.deep_view();
        assert(p.deep_view().take(i + 1).drop_last() =~= p.deep_view().take(i as int));
        assert(p.deep_view().take(i + 1).last() == p[i as int]@);
        if p[i].unicode_len() > 0 {
            let t = copiar(p[i].as_str());
            res.push(t);
            assert(res.deep_view() =~= antes.push(p[i as int]@));
        }
        i = i + 1;
    }
    assert(p.deep_view().take(p.len() as int) =~= p.deep_view());
    res
}

/// Recorta cada texto de `p`.
pub fn recortar_todos(p: &Vec<String>) -> (r: Vec<String>)
    ensures
        r.deep_view() == recortados(p.deep_view()),
{
    let mut res: Vec<String> = Vec::new();
    let mut i: usize = 0;
    while i < p.len()
        invariant
            i <= p.len(),
            res.len() == i,
            forall|j: int| 0 <= j < i ==> #[trigger] res[j]@ == recorte(p[j]@),
        decreases p.len() - i,
    {
        let t = recortar(p[i].as_str());
        res.push(t);
        i = i + 1;
    }
    assert(res.deep_view() =~= recortados(p.deep_view()));
    res
}

/// Las palabras de `s`, separadas por espacios Unicode.
pub fn separar_palabras(s: &str) -> (r: Vec<String>)
    ensures
        r.deep_view() == palabras(s@),
{
    let t = partir(s, &Separador::Espacio);
    quitar_vacios(t)
}

/// `s` con cada aparición de `c` sustituida por `por` (lo que hace
/// `str::replace` con un carácter como patrón).
pub open spec fn reemplazo(s: Seq<char>, c: char, por: Seq<char>) -> Seq<char>
    decreases s.len(),
{
    if s.len() == 0 {
        s
    } else {
        reemplazo(s.drop_last(), c, por) + if s.last() == c {
            por
        } else {
            seq![s.last()]
        }
    }
}

/// Sustituye en `s` cada `c` por `por`.
pub fn reemplazar(s: &str, c: char, por: &str) -> (r: String)
    ensures
        r@ == reemplazo(s@, c, por@),
{
    let n = s.unicode_len();
    let mut res = String::new();
    let mut i: usize = 0;
    assert(s@.take(0) =~= Seq::<char>::empty());
    while i < n
        invariant
            i <= n,
            n == s@.len(),
            res@ == reemplazo(s@.take(i as int), c, por@),
        decreases n - i,
    {
        assert(s@.take(i + 1).drop_last() =~= s@.take(i as int));
        let x = s.get_char(i);
        if x == c {
            res.append(por);
        } else {
            res.append(s.substring_char(i, i + 1));
            assert(s@.subrange(i as int, i + 1) =~= seq![x]);
        }
        i = i + 1;
    }
    assert(s@.take(n as int) =~= s@);
    res
}

/// `a`, un espacio y `b`.
pub open spec fn con_espacio(a: Seq<char>, b: Seq<char>) -> Seq<char> {
    a + seq![' '] + b
}

/// Junta `a` y `b` con un espacio entre ambos.
pub fn juntar_con_espacio(a: &str, b: &str) -> (r: String)
    ensures
        r@ == con_espacio(a@, b@),
{
    let mut r = copiar(a);
    let sep = " ";
    proof {
        reveal_strlit(" ");
    }
    r.append(sep);
    r.append(b);
    r
}

/// `p` aparece dentro de `s` (lo que decide `str::contains`).
pub open spec fn es_subcadena(p: Seq<char>, s: Seq<char>) -> bool {
    exists|i: int| 0 <= i && i + p.len() <= s.len() && #[trigger] tramo(s, i, p.len() as int) == p
}

/// Los `m` caracteres de `s` desde la posición `i`.
pub open spec fn tramo(s: Seq<char>, i: int, m: int) -> Seq<char> {
    s.subrange(i, i + m)
}

fn coincide_en(s: &str, p: &str, i: usize) -> (r: bool)
    requires
        i + p@.len() <= s@.len() <= usize::MAX,
    ensures
        r == (s@.subrange(i as int, i + p@.len()) == p@),
{
    let m = p.unicode_len();
    let mut j: usize = 0;
    while j < m
        invariant
            j <= m,
            m == p@.len(),
            i + m <= s@.len() <= usize::MAX,
            forall|t: int| 0 <= t < j ==> s@[i + t] == p@[t],
        decreases m - j,
    {
        if s.get_char(i + j) != p.get_char(j) {
            assert(s@.subrange(i as int, i + m)[j as int] != p@[j as int]);
            return false;
        }
        j = j + 1;
    }
    assert(s@.subrange(i as int, i + m) =~= p@);
    true
}

/// Decide si `p` aparece dentro de `s`.
pub fn contiene_texto(s: &str, p: &str) -> (r: bool)
    ensures
        r == es_subcadena(p@, s@),
{
    let n = s.unicode_len();
    let m = p.unicode_len();
    if m > n {
        return false;
    }
    if m == 0 {
        assert(tramo(s@, 0, 0) =~= p@);
        return true;
    }
    let mut i: usize = 0;
    while i <= n - m
        invariant
            1 <= m <= n,
            n == s@.len(),
            m == p@.len(),
            i <= n - m + 1,
            forall|t: int| 0 <= t < i ==> #[trigger] tramo(s@, t, m as int) != p@,
        decreases n - m + 1 - i,
    {
        if coincide_en(s, p, i) {
            assert(tramo(s@, i as int, m as int) == p@);
            return true;
        }
        i = i + 1;
    }
    false
}

/// Las minúsculas Unicode de `s`, tal como las calcula
/// `str::to_lowercase` (la tabla de Unicode no se escribe aquí).
pub uninterp spec fn minusculas_de(s: Seq<char>) -> Seq<char>;

/// Llama a `str::to_lowercase`. El contrato sólo dice que el resultado es
/// `minusculas_de` de los caracteres de `s`: depende de `s` y de nada más;
/// qué carácter da cada uno no queda dicho.
#[verifier::external_body]
pub(crate) fn minusculas(s: &str) -> (r: String)
    ensures
        r@ == minusculas_de(s@),
{
    s.to_lowercase()
}

/// El primer trozo es el prefijo de `s` anterior al primer separador: no
/// tiene separadores, y si no es todo `s`, lo sigue un separador; hay un
/// solo trozo exactamente cuando el primero es todo `s`.
pub proof fn lema_primer_trozo(s: Seq<char>, k: Separador)
    ensures
        trozos(s, k).len() >= 1,
        ({
            let t = trozos(s, k)[0];
            &&& t.len() <= s.len()
            &&& s.take(t.len() as int) == t
            &&& forall|i: int| 0 <= i < t.len() ==> !es_separador(k, #[trigger] t[i])
            &&& t.len() < s.len() ==> es_separador(k, s[t.len() as int])
            &&& (trozos(s, k).len() == 1 <==> t.len() == s.len())
        }),
    decreases s.len(),
{
    lema_trozos_no_vacio(s, k);
    if s.len() == 0 {
        assert(s.take(0) =~= Seq::<char>::empty());
    } else {
        let sp = s.drop_last();
        let c = s.last();
        lema_primer_trozo(sp, k);
        lema_trozos_no_vacio(sp, k);
        let p = trozos(sp, k);
        let tp = p[0];
        assert(sp.take(tp.len() as int) =~= s.take(tp.len() as int));
        if tp.len() < sp.len() {
            assert(s[tp.len() as int] == sp[tp.len() as int]);
        }
        if !es_separador(k, c) && p.len() == 1 {
            let t = trozos(s, k)[0];
            assert(t == tp.push(c));
            assert(tp =~= sp);
            assert(s.take(t.len() as int) =~= t);
            assert forall|i: int| 0 <= i < t.len() implies !es_separador(k, #[trigger] t[i]) by {
                if i < tp.len() {
                    assert(t[i] == tp[i]);
                }
            }
        }
    }
}

/// Si `por` no tiene `d`, y `d` es el carácter reemplazado o no está en
/// `s`, el resultado del reemplazo no tiene `d`.
pub proof fn lema_reemplazo_sin(s: Seq<char>, c: char, por: Seq<char>, d: char)
    requires
        !por.contains(d),
        d == c || !s.contains(d),
    ensures
        !reemplazo(s, c, por).contains(d),
    decreases s.len(),
{
    if s.len() > 0 {
        let sp = s.drop_last();
        if d != c {
            assert forall|i: int| 0 <= i < sp.len() implies sp[i] != d by {
                assert(s[i] == sp[i]);
            }
        }
        lema_reemplazo_sin(sp, c, por, d);
        let a = reemplazo(sp, c, por);
        let b = if s.last() == c {
            por
        } else {
            seq![s.last()]
        };
        if d != c && s.last() != c {
            assert(s[s.len() - 1] == s.last());
        }
        assert forall|i: int| 0 <= i < (a + b).len() implies (a + b)[i] != d by {
            if i < a.len() {
                assert((a + b)[i] == a[i]);
            } else {
                assert((a + b)[i] == b[i - a.len()]);
            }
        }
    }
}


/// Ningún carácter de `s` separa según `k`.
pub open spec fn sin_separadores(s: Seq<char>, k: Separador) -> bool {
    forall|j: int| 0 <= j < s.len() ==> !es_separador(k, #[trigger] s[j])
}

/// Ningún trozo tiene separadores.
pub proof fn lema_trozos_sin_separadores(s: Seq<char>, k: Separador)
    ensures
        forall|i: int| 0 <= i < trozos(s, k).len() ==> sin_separadores(#[trigger] trozos(s, k)[i], k),
    decreases s.len(),
{
    if s.len() > 0 {
        let sp = s.drop_last();
        let c = s.last();
        lema_trozos_sin_separadores(sp, k);
        lema_trozos_no_vacio(sp, k);
        let p = trozos(sp, k);
        if !es_separador(k, c) {
            let u = p.last().push(c);
            assert(sin_separadores(p[p.len() - 1], k));
            assert forall|j: int| 0 <= j < u.len() implies !es_separador(k, #[trigger] u[j]) by {
                if j < u.len() - 1 {
                    assert(u[j] == p[p.len() - 1][j]);
                }
            }
            assert forall|i: int| 0 <= i < trozos(s, k).len() implies sin_separadores(
                #[trigger] trozos(s, k)[i],
                k,
            ) by {
                if i < p.len() - 1 {
                    assert(trozos(s, k)[i] == p[i]);
                }
            }
        } else {
            assert forall|i: int| 0 <= i < trozos(s, k).len() implies sin_separadores(
                #[trigger] trozos(s, k)[i],
                k,
            ) by {
                if i < p.len() {
                    assert(trozos(s, k)[i] == p[i]);
                } else {
                    assert(trozos(s, k)[i] =~= Seq::<char>::empty());
                }
            }
        }
    }
}

/// Quitar los espacios iniciales conserva la falta de separadores y deja
/// un texto que, si no es vacío, no empieza con un espacio.
pub proof fn lema_sin_iniciales(s: Seq<char>, k: Separador)
    ensures
        sin_separadores(s, k) ==> sin_separadores(sin_espacios_iniciales(s), k),
        sin_espacios_iniciales(s).len() > 0 ==> !es_espacio(sin_espacios_iniciales(s)[0]),
    decreases s.len(),
{
    if s.len() > 0 && es_espacio(s[0]) {
        let d = s.drop_first();
        if sin_separadores(s, k) {
            assert forall|j: int| 0 <= j < d.len() implies !es_separador(k, #[trigger] d[j]) by {
                assert(d[j] == s[j + 1]);
            }
        }
        lema_sin_iniciales(d, k);
    }
}

/// Quitar los espacios finales deja un prefijo que, si no es vacío, no
/// termina con un espacio.
pub proof fn lema_sin_finales(s: Seq<char>)
    ensures
        sin_espacios_finales(s).len() <= s.len(),
        forall|j: int| 0 <= j < sin_espacios_finales(s).len() ==> #[trigger] sin_espacios_finales(s)[j] == s[j],
        sin_espacios_finales(s).len() > 0 ==> !es_espacio(sin_espacios_finales(s).last()),
    decreases s.len(),
{
    if s.len() > 0 && es_espacio(s.last()) {
        lema_sin_finales(s.drop_last());
    }
}

/// Un texto recortado sin separadores, no vacío, no empieza ni termina
/// con un espacio.
pub proof fn lema_recorte(s: Seq<char>, k: Separador)
    ensures
        sin_separadores(s, k) ==> sin_separadores(recorte(s), k),
        recorte(s).len() > 0 ==> !es_espacio(recorte(s)[0]) && !es_espacio(recorte(s).last()),
{
    let t = sin_espacios_iniciales(s);
    lema_sin_iniciales(s, k);
    lema_sin_finales(t);
    let r = recorte(s);
    if sin_separadores(s, k) {
        assert forall|j: int| 0 <= j < r.len() implies !es_separador(k, #[trigger] r[j]) by {
            assert(r[j] == t[j]);
        }
    }
    if r.len() > 0 {
        assert(r[0] == t[0]);
    }
}

/// Cada elemento de `no_vacios(p)` es un elemento no vacío de `p`.
pub proof fn lema_no_vacios(p: Seq<Seq<char>>)
    ensures
        forall|i: int|
            0 <= i < no_vacios(p).len() ==> #[trigger] no_vacios(p)[i].len() > 0 && exists|j: int|
                0 <= j < p.len() && no_vacios(p)[i] == #[trigger] p[j],
    decreases p.len(),
{
    if p.len() > 0 {
        let q = p.drop_last();
        lema_no_vacios(q);
        assert forall|i: int| 0 <= i < no_vacios(p).len() implies #[trigger] no_vacios(p)[i].len() > 0
            && exists|j: int| 0 <= j < p.len() && no_vacios(p)[i] == #[trigger] p[j] by {
            if i < no_vacios(q).len() {
                assert(no_vacios(p)[i] == no_vacios(q)[i]);
                let j = choose|j: int| 0 <= j < q.len() && no_vacios(q)[i] == #[trigger] q[j];
                assert(p[j] == q[j]);
            } else {
                assert(no_vacios(p)[i] == p[p.len() - 1]);
            }
        }
    }
}

} // verus!
