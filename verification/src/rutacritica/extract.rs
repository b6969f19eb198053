//! Extracción de secciones desde las planillas de la ruta crítica:
//! equivalencias entre ramos, conteo de electivos y de cursos de formación
//! general, y construcción de la lista de secciones.
use vstd::prelude::*;
use vstd::utf8::encode_utf8;
use vstd::utf8::is_char_boundary;
use crate::models::{
    MapaRamos, RamoVista, Seccion, SeccionVista, copiar_textos, vista_opcional, vista_secciones,
};
use crate::numeros::{
    escribir_entero, escribir_natural, lectura_i32, leer_i32, leer_i32_rango, texto_entero,
    texto_natural,
};
use crate::texto::{
    Separador, con_espacio, empieza_con, empieza_con_caracter, empieza_con_letra, es_prefijo,
    iguales, juntar_con_espacio, palabras, partir, recortados, recortar_todos, separar_palabras,
    trozos,
};

verus! {

/// Vista de una planilla: filas de celdas de texto.
pub type Filas = Seq<Seq<Seq<char>>>;

/// La celda `i` de la fila `f`, o el texto vacío si la fila es más corta.
pub open spec fn celda(f: Seq<Seq<char>>, i: int) -> Seq<char> {
    if 0 <= i < f.len() {
        f[i]
    } else {
        Seq::empty()
    }
}

/// Copia la celda `i` de la fila `f` (vacía si no existe).
pub fn leer_celda(f: &Vec<String>, i: usize) -> (r: String)
    ensures
        r@ == celda(f.deep_view(), i as int),
{
    if i < f.len() {
        f[i].clone()
    } else {
        String::new()
    }
}

/// Cortar los bytes de `s` en la posición `n` no rompe un carácter, o
/// `s` tiene menos de `n` bytes (un corte `&s[..n]` así no falla).
pub open spec fn corte_valido(s: Seq<char>, n: int) -> bool {
    encode_utf8(s).len() < n || is_char_boundary(encode_utf8(s), n)
}

/// Los bytes UTF-8 de `s` empiezan con `p`.
pub open spec fn prefijo_bytes(s: Seq<char>, p: Seq<u8>) -> bool {
    encode_utf8(s).len() >= p.len() && encode_utf8(s).take(p.len() as int) == p
}

/// Decide si los bytes UTF-8 de `s` empiezan con `p`.
pub fn empieza_con_bytes(s: &str, p: &Vec<u8>) -> (r: bool)
    ensures
        r == prefijo_bytes(s@, p@),
{
    let b = s.as_bytes();
    if b.len() < p.len() {
        return false;
    }
    let mut i: usize = 0;
    while i < p.len()
        invariant
            i <= p.len() <= b@.len(),
            b@ == encode_utf8(s@),
            forall|j: int| 0 <= j < i ==> b@[j] == p@[j],
        decreases p.len() - i,
    {
        if b[i] != p[i] {
            assert(b@.take(p@.len() as int)[i as int] != p@[i as int]);
            return false;
        }
        i = i + 1;
    }
    assert(b@.take(p@.len() as int) =~= p@);
    true
}

/// Bytes de `"CFG"`.
pub open spec fn bytes_cfg() -> Seq<u8> {
    seq![67u8, 70u8, 71u8]
}

/// Bytes de `"CIT33"`, los electivos de informática.
pub open spec fn bytes_cit33() -> Seq<u8> {
    seq![67u8, 73u8, 84u8, 51u8, 51u8]
}

/// Bytes de `"CIT34"`, los electivos de telecomunicaciones.
pub open spec fn bytes_cit34() -> Seq<u8> {
    seq![67u8, 73u8, 84u8, 51u8, 52u8]
}

fn vec_cfg() -> (r: Vec<u8>)
    ensures
        r@ == bytes_cfg(),
{
    let r = vec![67u8, 70u8, 71u8];
    assert(r@ =~= bytes_cfg());
    r
}

fn vec_cit33() -> (r: Vec<u8>)
    ensures
        r@ == bytes_cit33(),
{
    let r = vec![67u8, 73u8, 84u8, 51u8, 51u8];
    assert(r@ =~= bytes_cit33());
    r
}

fn vec_cit34() -> (r: Vec<u8>)
    ensures
        r@ == bytes_cit34(),
{
    let r = vec![67u8, 73u8, 84u8, 51u8, 52u8];
    assert(r@ =~= bytes_cit34());
    r
}

/// Las filas de más de una celda cuya segunda celda empieza con los
/// bytes `p`: esas segundas celdas, en orden.
pub open spec fn codigos_con_prefijo(filas: Filas, p: Seq<u8>) -> Seq<Seq<char>>
    decreases filas.len(),
{
    if filas.len() == 0 {
        Seq::empty()
    } else {
        let f = filas.last();
        let antes = codigos_con_prefijo(filas.drop_last(), p);
        if f.len() > 1 && prefijo_bytes(f[1], p) {
            antes.push(f[1])
        } else {
            antes
        }
    }
}

/// La segunda celda de cada fila se puede cortar en el byte `n`.
pub open spec fn codigos_cortables(filas: Filas, n: int) -> bool {
    forall|i: int| 0 <= i < filas.len() && filas[i].len() > 1 ==> corte_valido(#[trigger] filas[i][1], n)
}

/// Las segundas celdas de `filas` que empiezan con `p`, y cuántas son.
fn codigos_prefijados(filas: &Vec<Vec<String>>, p: &Vec<u8>) -> (r: Vec<String>)
    ensures
        r.deep_view() == codigos_con_prefijo(filas.deep_view(), p@),
{
    let mut res: Vec<String> = Vec::new();
    let mut i: usize = 0;
    assert(filas.deep_view().take(0) =~= Seq::<Seq<Seq<char>>>::empty());
    while i < filas.len()
        invariant
            i <= filas.len(),
            res.deep_view() == codigos_con_prefijo(filas.deep_view().take(i as int), p@),
        decreases filas.len() - i,
    {
        let ghost antes = res.deep_view();
        assert(filas.deep_view().take(i + 1).drop_last() =~= filas.deep_view().take(i as int));
        assert(filas.deep_view().take(i + 1).last() == filas[i as int].deep_view());
        if filas[i].len() > 1 {
            assert(filas[i as int].deep_view()[1] == filas[i as int][1]@);
            if empieza_con_bytes(filas[i][1].as_str(), p) {
                res.push(filas[i][1].clone());
                assert(res.deep_view() =~= antes.push(filas[i as int][1]@));
            }
        }
        i = i + 1;
    }
    assert(filas.deep_view().take(filas.len() as int) =~= filas.deep_view());
    res
}

/// Cuántos cursos de formación general (código que empieza con `CFG`)
/// trae la malla del alumno.
pub fn counter_cfg_malla(malla_alumno: &Vec<Vec<String>>) -> (r: usize)
    requires
        codigos_cortables(malla_alumno.deep_view(), 3),
    ensures
        r == codigos_con_prefijo(malla_alumno.deep_view(), bytes_cfg()).len(),
{
    let p = vec_cfg();
    let c = codigos_prefijados(malla_alumno, &p);
    c.len()
}

/// Los cursos de formación general aprobados: cuántos son y sus códigos.
pub fn counter_cfg_aprobados(ramos_aprobados: &Vec<Vec<String>>) -> (r: (usize, Vec<String>))
    requires
        codigos_cortables(ramos_aprobados.deep_view(), 3),
    ensures
        r.1.deep_view() == codigos_con_prefijo(ramos_aprobados.deep_view(), bytes_cfg()),
        r.0 == r.1.len(),
{
    let p = vec_cfg();
    let c = codigos_prefijados(ramos_aprobados, &p);
    (c.len(), c)
}

/// Cuántos electivos de informática (`CIT33`) y de telecomunicaciones
/// (`CIT34`) trae la malla del alumno.
pub fn counter_electivos_malla(malla_alumno: &Vec<Vec<String>>) -> (r: (usize, usize))
    requires
        codigos_cortables(malla_alumno.deep_view(), 5),
    ensures
        r.0 == codigos_con_prefijo(malla_alumno.deep_view(), bytes_cit33()).len(),
        r.1 == codigos_con_prefijo(malla_alumno.deep_view(), bytes_cit34()).len(),
{
    let inf = codigos_prefijados(malla_alumno, &vec_cit33());
    let tel = codigos_prefijados(malla_alumno, &vec_cit34());
    (inf.len(), tel.len())
}

/// Las filas de más de una celda cuya segunda celda empieza con
/// `CIT33` o `CIT34`: esas segundas celdas, en orden.
pub open spec fn codigos_electivos(filas: Filas) -> Seq<Seq<char>>
    decreases filas.len(),
{
    if filas.len() == 0 {
        Seq::empty()
    } else {
        let f = filas.last();
        let antes = codigos_electivos(filas.drop_last());
        if f.len() > 1 && (prefijo_bytes(f[1], bytes_cit33()) || prefijo_bytes(f[1], bytes_cit34())) {
            antes.push(f[1])
        } else {
            antes
        }
    }
}

/// Los electivos aprobados: cuántos de informática, cuántos de
/// telecomunicaciones y sus códigos en el orden de las filas.
pub fn counter_electivos_aprobados(ramos_aprobados: &Vec<Vec<String>>) -> (r: (
    usize,
    usize,
    Vec<String>,
))
    requires
        codigos_cortables(ramos_aprobados.deep_view(), 5),
    ensures
        r.0 == codigos_con_prefijo(ramos_aprobados.deep_view(), bytes_cit33()).len(),
        r.1 == codigos_con_prefijo(ramos_aprobados.deep_view(), bytes_cit34()).len(),
        r.2.deep_view() == codigos_electivos(ramos_aprobados.deep_view()),
{
    let inf = codigos_prefijados(ramos_aprobados, &vec_cit33());
    let tel = codigos_prefijados(ramos_aprobados, &vec_cit34());
    let p33 = vec_cit33();
    let p34 = vec_cit34();
    let mut res: Vec<String> = Vec::new();
    let mut i: usize = 0;
    assert(ramos_aprobados.deep_view().take(0) =~= Seq::<Seq<Seq<char>>>::empty());
    while i < ramos_aprobados.len()
        invariant
            i <= ramos_aprobados.len(),
            p33@ == bytes_cit33(),
            p34@ == bytes_cit34(),
            res.deep_view() == codigos_electivos(ramos_aprobados.deep_view().take(i as int)),
        decreases ramos_aprobados.len() - i,
    {
        let ghost antes = res.deep_view();
        assert(ramos_aprobados.deep_view().take(i + 1).drop_last()
            =~= ramos_aprobados.deep_view().take(i as int));
        assert(ramos_aprobados.deep_view().take(i + 1).last()
            == ramos_aprobados[i as int].deep_view());
        if ramos_aprobados[i].len() > 1 {
            assert(ramos_aprobados[i as int].deep_view()[1] == ramos_aprobados[i as int][1]@);
            let cod = ramos_aprobados[i][1].as_str();
            if empieza_con_bytes(cod, &p33) || empieza_con_bytes(cod, &p34) {
                res.push(ramos_aprobados[i][1].clone());
                assert(res.deep_view() =~= antes.push(ramos_aprobados[i as int][1]@));
            }
        }
        i = i + 1;
    }
    assert(ramos_aprobados.deep_view().take(ramos_aprobados.len() as int)
        =~= ramos_aprobados.deep_view());
    (inf.len(), tel.len(), res)
}

/// Número de sección escrito en los bytes 8 y 9 del texto (el formato
/// `XXXXXXXXNN` de la oferta); 0 si no hay tantos bytes o no es un número.
pub open spec fn numero_seccion(s: Seq<char>) -> i32 {
    let b = encode_utf8(s);
    if b.len() >= 10 {
        match lectura_i32(b.subrange(8, 10)) {
            Some(v) => v,
            None => 0,
        }
    } else if b.len() > 8 {
        match lectura_i32(b.subrange(8, 9)) {
            Some(v) => v,
            None => 0,
        }
    } else {
        0
    }
}

/// Los cortes en los bytes 8, 9 y 10 que hace `safe_parse_seccion` no
/// rompen un carácter.
pub open spec fn seccion_cortable(s: Seq<char>) -> bool {
    let b = encode_utf8(s);
    &&& b.len() >= 10 ==> is_char_boundary(b, 8) && is_char_boundary(b, 10)
    &&& b.len() == 9 ==> is_char_boundary(b, 8)
}

/// Lee el número de sección de los bytes 8 y 9 de `s`.
pub fn safe_parse_seccion(s: &str) -> (r: i32)
    requires
        seccion_cortable(s@),
    ensures
        r == numero_seccion(s@),
{
    let b = s.as_bytes();
    let n = b.len();
    if n >= 10 {
        match leer_i32_rango(b, 8, 10) {
            Some(v) => v,
            None => 0,
        }
    } else if n > 8 {
        match leer_i32_rango(b, 8, 9) {
            Some(v) => v,
            None => 0,
        }
    } else {
        0
    }
}

/// La fila `f` nombra el ramo `k` en su segunda celda.
pub open spec fn fila_del_ramo(f: Seq<Seq<char>>, k: Seq<char>) -> bool {
    f.len() > 1 && f[1] == k
}

/// La primera fila de `oferta`, desde la `i`, que nombra el ramo `k`.
pub open spec fn primera_fila_desde(oferta: Filas, k: Seq<char>, i: int) -> Option<int>
    decreases oferta.len() - i,
{
    if i < 0 || i >= oferta.len() {
        None
    } else if fila_del_ramo(oferta[i], k) {
        Some(i)
    } else {
        primera_fila_desde(oferta, k, i + 1)
    }
}

/// Entre las primeras `j` filas de `equivalencias`, la última de al menos
/// dos celdas que empieza con `k`: su segunda celda.
pub open spec fn equivalencia_hasta(equivalencias: Filas, k: Seq<char>, j: int) -> Option<
    Seq<char>,
>
    decreases j,
{
    if j <= 0 || j > equivalencias.len() {
        None
    } else if equivalencias[j - 1].len() >= 2 && equivalencias[j - 1][0] == k {
        Some(equivalencias[j - 1][1])
    } else {
        equivalencia_hasta(equivalencias, k, j - 1)
    }
}

/// El ramo equivalente a `k` según la planilla de equivalencias (la
/// última fila que lo nombra manda).
pub open spec fn equivalente(equivalencias: Filas, k: Seq<char>) -> Option<Seq<char>> {
    equivalencia_hasta(equivalencias, k, equivalencias.len() as int)
}

/// El código con que se busca `k` en la oferta: `k` mismo si la oferta lo
/// dicta con un valor en la octava celda de su primera fila; si no, su
/// equivalente, y `k` cuando no tiene.
pub open spec fn codigo_referencia(oferta: Filas, equivalencias: Filas, k: Seq<char>) -> Seq<
    char,
> {
    let por_equivalencia = match equivalente(equivalencias, k) {
        Some(e) => e,
        None => k,
    };
    match primera_fila_desde(oferta, k, 0) {
        Some(p) => if celda(oferta[p], 7).len() > 0 {
            k
        } else {
            por_equivalencia
        },
        None => por_equivalencia,
    }
}

/// La entrada `e` del mapa con su `codigo_ref` fijado por
/// `codigo_referencia`.
pub open spec fn con_referencia(e: (Seq<char>, RamoVista), oferta: Filas, equivalencias: Filas) -> (
    Seq<char>,
    RamoVista,
) {
    (e.0, RamoVista { codigo_ref: Some(codigo_referencia(oferta, equivalencias, e.0)), ..e.1 })
}

fn buscar_equivalente(equivalencias: &Vec<Vec<String>>, k: &str) -> (r: Option<String>)
    ensures
        vista_opcional(r) == equivalente(equivalencias.deep_view(), k@),
{
    let ghost dv = equivalencias.deep_view();
    let mut j: usize = equivalencias.len();
    while j > 0
        invariant
            j <= equivalencias.len(),
            dv == equivalencias.deep_view(),
            equivalente(dv, k@) == equivalencia_hasta(dv, k@, j as int),
        decreases j,
    {
        let f = &equivalencias[j - 1];
        assert(dv[j - 1] == f.deep_view());
        if f.len() >= 2 {
            assert(f.deep_view()[0] == f[0]@ && f.deep_view()[1] == f[1]@);
            if iguales(f[0].as_str(), k) {
                return Some(f[1].clone());
            }
        }
        j = j - 1;
    }
    None
}

fn buscar_fila(oferta: &Vec<Vec<String>>, k: &str) -> (r: Option<usize>)
    ensures
        match r {
            Some(p) => primera_fila_desde(oferta.deep_view(), k@, 0) == Some(p as int) && p
                < oferta.len(),
            None => primera_fila_desde(oferta.deep_view(), k@, 0) is None,
        },
{
    let ghost dv = oferta.deep_view();
    let mut i: usize = 0;
    while i < oferta.len()
        invariant
            i <= oferta.len(),
            dv == oferta.deep_view(),
            primera_fila_desde(dv, k@, 0) == primera_fila_desde(dv, k@, i as int),
        decreases oferta.len() - i,
    {
        let f = &oferta[i];
        assert(dv[i as int] == f.deep_view());
        if f.len() > 1 {
            assert(f.deep_view()[1] == f[1]@);
            if iguales(f[1].as_str(), k) {
                return Some(i);
            }
        }
        i = i + 1;
    }
    None
}

/// Fija el `codigo_ref` de cada ramo: el código con que aparece en la
/// oferta académica, directo o por equivalencia.
pub fn equivalencia(
    ramos_disponibles: &mut MapaRamos,
    oferta_academica: &Vec<Vec<String>>,
    equivalencia_ramos: &Vec<Vec<String>>,
)
    ensures
        final(ramos_disponibles)@ == old(ramos_disponibles)@.map_values(
            |e: (Seq<char>, RamoVista)|
                con_referencia(e, oferta_academica.deep_view(), equivalencia_ramos.deep_view()),
        ),
{
    let ghost inicial = ramos_disponibles@;
    let ghost of = oferta_academica.deep_view();
    let ghost eq = equivalencia_ramos.deep_view();
    let n = ramos_disponibles.len();
    let mut i: usize = 0;
    while i < n
        invariant
            i <= n,
            n == inicial.len(),
            ramos_disponibles@.len() == n,
            of == oferta_academica.deep_view(),
            eq == equivalencia_ramos.deep_view(),
            forall|j: int| 0 <= j < i ==> #[trigger] ramos_disponibles@[j] == con_referencia(inicial[j], of, eq),
            forall|j: int| i <= j < n ==> #[trigger] ramos_disponibles@[j] == inicial[j],
        decreases n - i,
    {
        let k = ramos_disponibles.clave(i).clone();
        let equivalente_k = buscar_equivalente(equivalencia_ramos, k.as_str());
        let por_equivalencia = match equivalente_k {
            Some(e) => e,
            None => k.clone(),
        };
        let referencia = match buscar_fila(oferta_academica, k.as_str()) {
            Some(p) => {
                assert(of[p as int] == oferta_academica[p as int].deep_view());
                let v7 = leer_celda(&oferta_academica[p], 7);
                if v7.unicode_len() > 0 {
                    k.clone()
                } else {
                    por_equivalencia
                }
            },
            None => por_equivalencia,
        };
        ramos_disponibles.set_codigo_ref(i, Some(referencia));
        i = i + 1;
    }
    assert(ramos_disponibles@ =~= inicial.map_values(
        |e: (Seq<char>, RamoVista)| con_referencia(e, of, eq),
    ));
}

/// Ya hay en `lista` una sección con ese código y esa caja.
pub open spec fn ya_esta(lista: Seq<SeccionVista>, codigo: Seq<char>, caja: Seq<char>) -> bool {
    exists|i: int| 0 <= i < lista.len() && #[trigger] lista[i].codigo == codigo && lista[i].codigo_box == caja
}

/// `lista` con `s` al final, salvo que ya tenga su par (código, caja) o
/// que su número de sección sea 99.
pub open spec fn agregar(lista: Seq<SeccionVista>, s: SeccionVista, numero: i32) -> Seq<
    SeccionVista,
> {
    if !ya_esta(lista, s.codigo, s.codigo_box) && numero != 99 {
        lista.push(s)
    } else {
        lista
    }
}

/// Decide si `lista` ya tiene una sección con ese código y esa caja.
pub fn esta_en(lista: &Vec<Seccion>, codigo: &str, caja: &str) -> (r: bool)
    ensures
        r == ya_esta(vista_secciones(lista@), codigo@, caja@),
{
    let ghost v = vista_secciones(lista@);
    let mut i: usize = 0;
    while i < lista.len()
        invariant
            i <= lista.len(),
            v == vista_secciones(lista@),
            forall|j: int| 0 <= j < i ==> !(v[j].codigo == codigo@ && v[j].codigo_box == caja@),
        decreases lista.len() - i,
    {
        if iguales(lista[i].codigo.as_str(), codigo) && iguales(lista[i].codigo_box.as_str(), caja) {
            assert(v[i as int].codigo == codigo@);
            return true;
        }
        i = i + 1;
    }
    false
}

/// Lo que se sabe de una fila de oferta antes de cruzarla con los ramos.
pub struct CandidataVista {
    pub codigo: Seq<char>,
    pub cod_ramo: Seq<char>,
    pub nombre: Seq<char>,
    pub vacantes: Seq<char>,
    pub numero: i32,
    pub profesor: Seq<char>,
    pub horario: Seq<Seq<char>>,
}

struct Candidata {
    codigo: String,
    cod_ramo: String,
    nombre: String,
    vacantes: String,
    numero: i32,
    profesor: String,
    horario: Vec<String>,
}

spec fn vista_candidata(c: &Candidata) -> CandidataVista {
    CandidataVista {
        codigo: c.codigo@,
        cod_ramo: c.cod_ramo@,
        nombre: c.nombre@,
        vacantes: c.vacantes@,
        numero: c.numero,
        profesor: c.profesor@,
        horario: c.horario.deep_view(),
    }
}

/// La sección que sale de la candidata `c` en la caja `caja`.
pub open spec fn seccion_de(c: CandidataVista, caja: Seq<char>) -> SeccionVista {
    SeccionVista {
        codigo: c.codigo,
        nombre: c.nombre,
        seccion: texto_entero(c.numero as int),
        horario: c.horario,
        profesor: c.profesor,
        codigo_box: caja,
    }
}

fn construir_seccion(c: &Candidata, caja: &String) -> (r: Seccion)
    ensures
        r@ == seccion_de(vista_candidata(c), caja@),
{
    Seccion {
        codigo: c.codigo.clone(),
        nombre: c.nombre.clone(),
        seccion: escribir_entero(c.numero),
        horario: copiar_textos(&c.horario),
        profesor: c.profesor.clone(),
        codigo_box: caja.clone(),
    }
}

/// Agrega `s` a `lista` según `agregar`.
fn agregar_seccion(lista: &mut Vec<Seccion>, s: Seccion, numero: i32)
    ensures
        vista_secciones(final(lista)@) == agregar(vista_secciones(old(lista)@), s@, numero),
{
    let ghost antes = vista_secciones(lista@);
    if numero != 99 && !esta_en(lista, s.codigo.as_str(), s.codigo_box.as_str()) {
        let ghost sv = s@;
        lista.push(s);
        assert(vista_secciones(lista@) =~= antes.push(sv));
    }
}

/// Hay vacantes libres: el texto es un entero mayor que cero.
pub open spec fn vacantes_libres(v: Seq<char>) -> bool {
    match lectura_i32(encode_utf8(v)) {
        Some(x) => x > 0,
        None => false,
    }
}

fn hay_vacantes(v: &str) -> (r: bool)
    ensures
        r == vacantes_libres(v@),
{
    match leer_i32(v) {
        Some(x) => x > 0,
        None => false,
    }
}

/// El código con que el ramo de la entrada `e` aparece en la oferta: su
/// `codigo_ref`, o la clave si no lo tiene.
pub open spec fn referencia_de(e: (Seq<char>, RamoVista)) -> Seq<char> {
    match e.1.codigo_ref {
        Some(x) => x,
        None => e.0,
    }
}

/// Recorre los ramos en orden y, por cada uno cuyo código de referencia
/// es el ramo de la candidata, si hay vacantes, agrega la sección con la
/// clave del ramo como caja.
pub open spec fn agregar_por_ramos(
    lista: Seq<SeccionVista>,
    ramos: Seq<(Seq<char>, RamoVista)>,
    c: CandidataVista,
) -> Seq<SeccionVista>
    decreases ramos.len(),
{
    if ramos.len() == 0 {
        lista
    } else {
        let l = agregar_por_ramos(lista, ramos.drop_last(), c);
        let e = ramos.last();
        if c.cod_ramo == referencia_de(e) && vacantes_libres(c.vacantes) {
            agregar(l, seccion_de(c, e.0), c.numero)
        } else {
            l
        }
    }
}

fn agregar_por_ramos_exec(lista: &mut Vec<Seccion>, ramos: &MapaRamos, c: &Candidata)
    ensures
        vista_secciones(final(lista)@) == agregar_por_ramos(
            vista_secciones(old(lista)@),
            ramos@,
            vista_candidata(c),
        ),
{
    let ghost inicial = vista_secciones(lista@);
    let ghost cv = vista_candidata(c);
    let libres = hay_vacantes(c.vacantes.as_str());
    let mut i: usize = 0;
    assert(ramos@.take(0) =~= Seq::<(Seq<char>, RamoVista)>::empty());
    while i < ramos.len()
        invariant
            i <= ramos@.len(),
            cv == vista_candidata(c),
            libres == vacantes_libres(cv.vacantes),
            vista_secciones(lista@) == agregar_por_ramos(inicial, ramos@.take(i as int), cv),
        decreases ramos@.len() - i,
    {
        assert(ramos@.take(i + 1).drop_last() =~= ramos@.take(i as int));
        assert(ramos@.take(i + 1).last() == ramos@[i as int]);
        let clave = ramos.clave(i);
        let ramo = ramos.ramo(i);
        let coincide = match &ramo.codigo_ref {
            Some(x) => iguales(c.cod_ramo.as_str(), x.as_str()),
            None => iguales(c.cod_ramo.as_str(), clave.as_str()),
        };
        if coincide && libres {
            let s = construir_seccion(c, clave);
            agregar_seccion(lista, s, c.numero);
        }
        i = i + 1;
    }
    assert(ramos@.take(ramos@.len() as int) =~= ramos@);
}

/// El horario de una cátedra a partir de las palabras de su celda de
/// horario: con 5 palabras `a b h . .` da `a h` y `b h`; con 4, `a b`;
/// con 6 `a b c h . .` da `a h`, `b h` y `c h`; con 8, `a b` y la quinta
/// con la sexta; con otro número, nada.
pub open spec fn horario_catedra(p: Seq<Seq<char>>) -> Seq<Seq<char>> {
    if p.len() == 5 {
        seq![con_espacio(p[0], p[2]), con_espacio(p[1], p[2])]
    } else if p.len() == 4 {
        seq![con_espacio(p[0], p[1])]
    } else if p.len() == 6 {
        seq![con_espacio(p[0], p[3]), con_espacio(p[1], p[3]), con_espacio(p[2], p[3])]
    } else if p.len() == 8 {
        seq![con_espacio(p[0], p[1]), con_espacio(p[4], p[5])]
    } else {
        Seq::empty()
    }
}

/// El horario de un curso de formación general: como `horario_catedra`
/// pero sin el caso de 6 palabras.
pub open spec fn horario_cfg(p: Seq<Seq<char>>) -> Seq<Seq<char>> {
    if p.len() == 6 {
        Seq::empty()
    } else {
        horario_catedra(p)
    }
}

fn horario_desde_palabras(p: &Vec<String>, con_seis: bool) -> (r: Vec<String>)
    ensures
        r.deep_view() == if con_seis {
            horario_catedra(p.deep_view())
        } else {
            horario_cfg(p.deep_view())
        },
{
    let ghost v = p.deep_view();
    let mut r: Vec<String> = Vec::new();
    if p.len() == 5 {
        r.push(juntar_con_espacio(p[0].as_str(), p[2].as_str()));
        r.push(juntar_con_espacio(p[1].as_str(), p[2].as_str()));
        assert(r.deep_view() =~= seq![con_espacio(v[0], v[2]), con_espacio(v[1], v[2])]);
    } else if p.len() == 4 {
        r.push(juntar_con_espacio(p[0].as_str(), p[1].as_str()));
        assert(r.deep_view() =~= seq![con_espacio(v[0], v[1])]);
    } else if p.len() == 6 && con_seis {
        r.push(juntar_con_espacio(p[0].as_str(), p[3].as_str()));
        r.push(juntar_con_espacio(p[1].as_str(), p[3].as_str()));
        r.push(juntar_con_espacio(p[2].as_str(), p[3].as_str()));
        assert(r.deep_view() =~= seq![
            con_espacio(v[0], v[3]),
            con_espacio(v[1], v[3]),
            con_espacio(v[2], v[3]),
        ]);
    } else if p.len() == 8 {
        r.push(juntar_con_espacio(p[0].as_str(), p[1].as_str()));
        r.push(juntar_con_espacio(p[4].as_str(), p[5].as_str()));
        assert(r.deep_view() =~= seq![con_espacio(v[0], v[1]), con_espacio(v[4], v[5])]);
    } else {
        assert(r.deep_view() =~= Seq::<Seq<char>>::empty());
    }
    r
}

/// El número de sección de la celda `i` de `f`, 0 si no existe.
pub open spec fn numero_en(f: Seq<Seq<char>>, i: int) -> i32 {
    if 0 <= i < f.len() {
        numero_seccion(f[i])
    } else {
        0
    }
}

fn leer_numero(f: &Vec<String>, i: usize) -> (r: i32)
    requires
        i < f.len() ==> seccion_cortable(f[i as int]@),
    ensures
        r == numero_en(f.deep_view(), i as int),
{
    if i < f.len() {
        safe_parse_seccion(f[i].as_str())
    } else {
        0
    }
}

/// La candidata de una fila de cátedra: código en la celda 4, ramo en la
/// 1, nombre en la 2, vacantes en la 12, sección en la 3, profesor en la 9
/// y horario a partir de la 7.
pub open spec fn candidata_catedra(f: Seq<Seq<char>>) -> CandidataVista {
    CandidataVista {
        codigo: celda(f, 4),
        cod_ramo: celda(f, 1),
        nombre: celda(f, 2),
        vacantes: celda(f, 12),
        numero: numero_en(f, 3),
        profesor: celda(f, 9),
        horario: horario_catedra(palabras(celda(f, 7))),
    }
}

/// La candidata de una fila sin tipo: código en la celda 0, ramo y nombre
/// en la 1, vacantes en la 12, sección en la 3, profesor en la 7 y sin
/// horario.
pub open spec fn candidata_sin_tipo(f: Seq<Seq<char>>) -> CandidataVista {
    CandidataVista {
        codigo: celda(f, 0),
        cod_ramo: celda(f, 1),
        nombre: celda(f, 1),
        vacantes: celda(f, 12),
        numero: numero_en(f, 3),
        profesor: celda(f, 7),
        horario: Seq::empty(),
    }
}

fn candidata_de_catedra(f: &Vec<String>) -> (r: Candidata)
    requires
        f.len() > 3 ==> seccion_cortable(f[3]@),
    ensures
        vista_candidata(&r) == candidata_catedra(f.deep_view()),
{
    let h = leer_celda(f, 7);
    let p = separar_palabras(h.as_str());
    Candidata {
        codigo: leer_celda(f, 4),
        cod_ramo: leer_celda(f, 1),
        nombre: leer_celda(f, 2),
        vacantes: leer_celda(f, 12),
        numero: leer_numero(f, 3),
        profesor: leer_celda(f, 9),
        horario: horario_desde_palabras(&p, true),
    }
}

fn candidata_de_fila_sin_tipo(f: &Vec<String>) -> (r: Candidata)
    requires
        f.len() > 3 ==> seccion_cortable(f[3]@),
    ensures
        vista_candidata(&r) == candidata_sin_tipo(f.deep_view()),
{
    let r = Candidata {
        codigo: leer_celda(f, 0),
        cod_ramo: leer_celda(f, 1),
        nombre: leer_celda(f, 1),
        vacantes: leer_celda(f, 12),
        numero: leer_numero(f, 3),
        profesor: leer_celda(f, 7),
        horario: Vec::new(),
    };
    assert(r.horario.deep_view() =~= Seq::<Seq<char>>::empty());
    r
}

/// La fila tiene tipo de cátedra: su sexta celda empieza con `C`.
pub open spec fn es_catedra(f: Seq<Seq<char>>) -> bool {
    celda(f, 5).len() > 0 && empieza_con_caracter(celda(f, 5), 'C')
}

/// Las secciones que aporta una fila de la oferta: las de cátedra y las
/// de filas sin tipo se cruzan con los ramos; las demás no aportan.
pub open spec fn secciones_de_fila(
    lista: Seq<SeccionVista>,
    ramos: Seq<(Seq<char>, RamoVista)>,
    f: Seq<Seq<char>>,
) -> Seq<SeccionVista> {
    if f.len() == 0 {
        lista
    } else if celda(f, 5).len() > 0 {
        if es_catedra(f) {
            agregar_por_ramos(lista, ramos, candidata_catedra(f))
        } else {
            lista
        }
    } else {
        agregar_por_ramos(lista, ramos, candidata_sin_tipo(f))
    }
}

/// Las secciones que aportan las filas de la oferta, en orden.
pub open spec fn secciones_de_oferta(
    lista: Seq<SeccionVista>,
    ramos: Seq<(Seq<char>, RamoVista)>,
    oferta: Filas,
) -> Seq<SeccionVista>
    decreases oferta.len(),
{
    if oferta.len() == 0 {
        lista
    } else {
        secciones_de_fila(secciones_de_oferta(lista, ramos, oferta.drop_last()), ramos, oferta.last())
    }
}

/// Las celdas de sección que se leen de la oferta se pueden cortar: las de
/// las filas de cátedra, y las de filas sin tipo si hay ramos.
pub open spec fn oferta_cortable(oferta: Filas, hay_ramos: bool) -> bool {
    forall|i: int|
        0 <= i < oferta.len() && (#[trigger] oferta[i]).len() > 3 && (es_catedra(oferta[i]) || (
        celda(oferta[i], 5).len() == 0 && hay_ramos)) ==> seccion_cortable(oferta[i][3])
}

fn secciones_de_oferta_exec(lista: &mut Vec<Seccion>, ramos: &MapaRamos, oferta: &Vec<Vec<String>>)
    requires
        oferta_cortable(oferta.deep_view(), ramos@.len() > 0),
    ensures
        vista_secciones(final(lista)@) == secciones_de_oferta(
            vista_secciones(old(lista)@),
            ramos@,
            oferta.deep_view(),
        ),
{
    let ghost inicial = vista_secciones(lista@);
    let ghost of = oferta.deep_view();
    let mut i: usize = 0;
    assert(of.take(0) =~= Seq::<Seq<Seq<char>>>::empty());
    while i < oferta.len()
        invariant
            i <= oferta.len(),
            of == oferta.deep_view(),
            oferta_cortable(of, ramos@.len() > 0),
            vista_secciones(lista@) == secciones_de_oferta(inicial, ramos@, of.take(i as int)),
        decreases oferta.len() - i,
    {
        assert(of.take(i + 1).drop_last() =~= of.take(i as int));
        assert(of.take(i + 1).last() == of[i as int]);
        let f = &oferta[i];
        assert(of[i as int] == f.deep_view());
        assert(f.len() > 3 ==> f.deep_view()[3] == f[3]@);
        if f.len() > 0 {
            let tipo = leer_celda(f, 5);
            if tipo.unicode_len() > 0 {
                if empieza_con_letra(tipo.as_str(), 'C') {
                    let c = candidata_de_catedra(f);
                    agregar_por_ramos_exec(lista, ramos, &c);
                }
            } else if ramos.len() > 0 {
                let c = candidata_de_fila_sin_tipo(f);
                agregar_por_ramos_exec(lista, ramos, &c);
            } else {
                assert(ramos@.len() == 0);
            }
        }
        i = i + 1;
    }
    assert(of.take(oferta.len() as int) =~= of);
}

/// Los requisitos del electivo de la fila `em` (su quinta celda, partida
/// por comas y recortada) están todos aprobados: cada uno es la segunda
/// celda de alguna fila de `aprobados`.
pub open spec fn requisitos_cumplidos(em: Seq<Seq<char>>, aprobados: Filas) -> bool {
    let reqs = recortados(trozos(em[4], Separador::Coma));
    forall|i: int| 0 <= i < reqs.len() ==> aprobado_en(aprobados, #[trigger] reqs[i])
}

/// Alguna fila de `aprobados` nombra `req` en su segunda celda.
pub open spec fn aprobado_en(aprobados: Filas, req: Seq<char>) -> bool {
    exists|j: int| 0 <= j < aprobados.len() && #[trigger] fila_del_ramo(aprobados[j], req)
}

/// Los códigos de los electivos de la malla que el alumno puede tomar, en
/// orden.
pub open spec fn electivos_tomables(electivos_malla: Filas, aprobados: Filas) -> Seq<Seq<char>>
    decreases electivos_malla.len(),
{
    if electivos_malla.len() == 0 {
        Seq::empty()
    } else {
        let em = electivos_malla.last();
        let antes = electivos_tomables(electivos_malla.drop_last(), aprobados);
        if em.len() > 4 && requisitos_cumplidos(em, aprobados) {
            antes.push(em[1])
        } else {
            antes
        }
    }
}

fn aprobado(aprobados: &Vec<Vec<String>>, req: &str) -> (r: bool)
    ensures
        r == aprobado_en(aprobados.deep_view(), req@),
{
    let ghost dv = aprobados.deep_view();
    let mut j: usize = 0;
    while j < aprobados.len()
        invariant
            j <= aprobados.len(),
            dv == aprobados.deep_view(),
            forall|t: int| 0 <= t < j ==> !fila_del_ramo(#[trigger] dv[t], req@),
        decreases aprobados.len() - j,
    {
        let f = &aprobados[j];
        assert(dv[j as int] == f.deep_view());
        if f.len() > 1 {
            assert(f.deep_view()[1] == f[1]@);
            if iguales(f[1].as_str(), req) {
                assert(fila_del_ramo(dv[j as int], req@));
                return true;
            }
        }
        j = j + 1;
    }
    false
}

fn todos_aprobados(reqs: &Vec<String>, aprobados: &Vec<Vec<String>>) -> (r: bool)
    ensures
        r == forall|q: int|
            0 <= q < reqs.len() ==> aprobado_en(aprobados.deep_view(), #[trigger] reqs.deep_view()[q]),
{
    let mut t: usize = 0;
    while t < reqs.len()
        invariant
            t <= reqs.len(),
            forall|q: int|
                0 <= q < t ==> aprobado_en(aprobados.deep_view(), #[trigger] reqs.deep_view()[q]),
        decreases reqs.len() - t,
    {
        assert(reqs.deep_view()[t as int] == reqs[t as int]@);
        if !aprobado(aprobados, reqs[t].as_str()) {
            return false;
        }
        t = t + 1;
    }
    true
}

fn tomables(electivos_malla: &Vec<Vec<String>>, aprobados: &Vec<Vec<String>>) -> (r: Vec<String>)
    ensures
        r.deep_view() == electivos_tomables(electivos_malla.deep_view(), aprobados.deep_view()),
{
    let ghost em_v = electivos_malla.deep_view();
    let ghost ap_v = aprobados.deep_view();
    let mut res: Vec<String> = Vec::new();
    let mut i: usize = 0;
    assert(em_v.take(0) =~= Seq::<Seq<Seq<char>>>::empty());
    while i < electivos_malla.len()
        invariant
            i <= electivos_malla.len(),
            em_v == electivos_malla.deep_view(),
            ap_v == aprobados.deep_view(),
            res.deep_view() == electivos_tomables(em_v.take(i as int), ap_v),
        decreases electivos_malla.len() - i,
    {
        assert(em_v.take(i + 1).drop_last() =~= em_v.take(i as int));
        assert(em_v.take(i + 1).last() == em_v[i as int]);
        let em = &electivos_malla[i];
        assert(em_v[i as int] == em.deep_view());
        if em.len() > 4 {
            assert(em.deep_view()[4] == em[4]@ && em.deep_view()[1] == em[1]@);
            let partes = partir(em[4].as_str(), &Separador::Coma);
            let reqs = recortar_todos(&partes);
            let ok = todos_aprobados(&reqs, aprobados);
            let ghost antes = res.deep_view();
            if ok {
                res.push(em[1].clone());
                assert(res.deep_view() =~= antes.push(em[1]@));
            }
        }
        i = i + 1;
    }
    assert(em_v.take(electivos_malla.len() as int) =~= em_v);
    res
}

fn contiene(v: &Vec<String>, s: &str) -> (r: bool)
    ensures
        r == v.deep_view().contains(s@),
{
    let mut i: usize = 0;
    while i < v.len()
        invariant
            i <= v.len(),
            forall|j: int| 0 <= j < i ==> v.deep_view()[j] != s@,
        decreases v.len() - i,
    {
        assert(v.deep_view()[i as int] == v[i as int]@);
        if iguales(v[i].as_str(), s) {
            return true;
        }
        i = i + 1;
    }
    false
}

/// Lo que aporta una fila de la oferta a los electivos cuyo ramo empieza
/// con `prefijo`, en la caja `caja`: una fila de cátedra de más de 7
/// celdas, de un ramo tomable, con vacantes, da su sección.
pub open spec fn electivo_de_fila(
    lista: Seq<SeccionVista>,
    f: Seq<Seq<char>>,
    tomables: Seq<Seq<char>>,
    prefijo: Seq<char>,
    caja: Seq<char>,
) -> Seq<SeccionVista> {
    let c = candidata_catedra(f);
    if f.len() > 7 && es_catedra(f) && tomables.contains(c.cod_ramo) && vacantes_libres(c.vacantes)
        && es_prefijo(prefijo, c.cod_ramo) {
        agregar(lista, seccion_de(c, caja), c.numero)
    } else {
        lista
    }
}

/// Una pasada por la oferta buscando electivos para la caja `caja`.
pub open spec fn electivos_vuelta(
    lista: Seq<SeccionVista>,
    oferta: Filas,
    tomables: Seq<Seq<char>>,
    prefijo: Seq<char>,
    caja: Seq<char>,
) -> Seq<SeccionVista>
    decreases oferta.len(),
{
    if oferta.len() == 0 {
        lista
    } else {
        electivo_de_fila(
            electivos_vuelta(lista, oferta.drop_last(), tomables, prefijo, caja),
            oferta.last(),
            tomables,
            prefijo,
            caja,
        )
    }
}

/// Las pasadas `desde`, ..., `hasta - 1`; la pasada `z` usa la caja
/// `raiz` seguida de `z` en decimal.
pub open spec fn electivos_pasadas(
    lista: Seq<SeccionVista>,
    oferta: Filas,
    tomables: Seq<Seq<char>>,
    prefijo: Seq<char>,
    raiz: Seq<char>,
    desde: int,
    hasta: int,
) -> Seq<SeccionVista>
    decreases hasta - desde,
{
    if hasta <= desde {
        lista
    } else {
        electivos_vuelta(
            electivos_pasadas(lista, oferta, tomables, prefijo, raiz, desde, hasta - 1),
            oferta,
            tomables,
            prefijo,
            raiz + texto_natural((hasta - 1) as nat),
        )
    }
}

/// Las celdas de sección de las filas de cátedra de más de 7 celdas se
/// pueden cortar.
pub open spec fn electivos_cortables(oferta: Filas) -> bool {
    forall|i: int|
        0 <= i < oferta.len() && (#[trigger] oferta[i]).len() > 7 && es_catedra(oferta[i])
            ==> seccion_cortable(oferta[i][3])
}

fn electivos_vuelta_exec(
    lista: &mut Vec<Seccion>,
    oferta: &Vec<Vec<String>>,
    tomables: &Vec<String>,
    prefijo: &str,
    caja: &String,
)
    requires
        electivos_cortables(oferta.deep_view()),
    ensures
        vista_secciones(final(lista)@) == electivos_vuelta(
            vista_secciones(old(lista)@),
            oferta.deep_view(),
            tomables.deep_view(),
            prefijo@,
            caja@,
        ),
{
    let ghost inicial = vista_secciones(lista@);
    let ghost of = oferta.deep_view();
    let mut i: usize = 0;
    assert(of.take(0) =~= Seq::<Seq<Seq<char>>>::empty());
    while i < oferta.len()
        invariant
            i <= oferta.len(),
            of == oferta.deep_view(),
            electivos_cortables(of),
            vista_secciones(lista@) == electivos_vuelta(
                inicial,
                of.take(i as int),
                tomables.deep_view(),
                prefijo@,
                caja@,
            ),
        decreases oferta.len() - i,
    {
        assert(of.take(i + 1).drop_last() =~= of.take(i as int));
        assert(of.take(i + 1).last() == of[i as int]);
        let f = &oferta[i];
        assert(of[i as int] == f.deep_view());
        if f.len() > 7 {
            assert(f.deep_view()[3] == f[3]@);
            let tipo = leer_celda(f, 5);
            if tipo.unicode_len() > 0 && empieza_con_letra(tipo.as_str(), 'C') {
                let c = candidata_de_catedra(f);
                if contiene(tomables, c.cod_ramo.as_str()) && hay_vacantes(c.vacantes.as_str())
                    && empieza_con(c.cod_ramo.as_str(), prefijo) {
                    let s = construir_seccion(&c, caja);
                    agregar_seccion(lista, s, c.numero);
                }
            }
        }
        i = i + 1;
    }
    assert(of.take(oferta.len() as int) =~= of);
}

fn caja_numerada(raiz: &str, z: usize) -> (r: String)
    ensures
        r@ == raiz@ + texto_natural(z as nat),
{
    let mut r = raiz.to_owned();
    let n = escribir_natural(z as u64);
    r.append(n.as_str());
    r
}

fn electivos_pasadas_exec(
    lista: &mut Vec<Seccion>,
    oferta: &Vec<Vec<String>>,
    tomables: &Vec<String>,
    prefijo: &str,
    raiz: &str,
    desde: usize,
    hasta: usize,
)
    requires
        desde < hasta ==> electivos_cortables(oferta.deep_view()),
    ensures
        vista_secciones(final(lista)@) == electivos_pasadas(
            vista_secciones(old(lista)@),
            oferta.deep_view(),
            tomables.deep_view(),
            prefijo@,
            raiz@,
            desde as int,
            hasta as int,
        ),
{
    let ghost inicial = vista_secciones(lista@);
    let mut z: usize = desde;
    while z < hasta
        invariant
            desde <= hasta ==> desde <= z <= hasta,
            desde > hasta ==> z == desde,
            desde < hasta ==> electivos_cortables(oferta.deep_view()),
            vista_secciones(lista@) == electivos_pasadas(
                inicial,
                oferta.deep_view(),
                tomables.deep_view(),
                prefijo@,
                raiz@,
                desde as int,
                z as int,
            ),
        decreases hasta - z,
    {
        let caja = caja_numerada(raiz, z);
        electivos_vuelta_exec(lista, oferta, tomables, prefijo, &caja);
        z = z + 1;
    }
}

/// Agrega los electivos: primero los de informática (`CIT33`, cajas
/// `CIT331` seguidas del número de pasada), una pasada por cada electivo
/// que falta aprobar, y luego los de telecomunicaciones (`CIT34`, cajas
/// `CIT341`...). Sólo cuentan los electivos cuyos requisitos están
/// aprobados.
pub fn append_electivos(
    lista_secciones: &mut Vec<Seccion>,
    oferta_academica: &Vec<Vec<String>>,
    ramos_aprobados: &Vec<Vec<String>>,
    electivos_malla: &Vec<Vec<String>>,
    cant_elect_inf_malla: usize,
    cant_elect_tel_malla: usize,
    count_electivos_inf_aprobados: usize,
    count_electivos_tel_aprobados: usize,
    _electivos_aprobados: &Vec<String>,
)
    requires
        count_electivos_inf_aprobados < cant_elect_inf_malla || count_electivos_tel_aprobados
            < cant_elect_tel_malla ==> electivos_cortables(oferta_academica.deep_view()),
    ensures
        vista_secciones(final(lista_secciones)@) == electivos_agregados(
            vista_secciones(old(lista_secciones)@),
            oferta_academica.deep_view(),
            electivos_malla.deep_view(),
            ramos_aprobados.deep_view(),
            cant_elect_inf_malla as int,
            cant_elect_tel_malla as int,
            count_electivos_inf_aprobados as int,
            count_electivos_tel_aprobados as int,
        ),
{
    let t = tomables(electivos_malla, ramos_aprobados);
    electivos_pasadas_exec(
        lista_secciones,
        oferta_academica,
        &t,
        "CIT33",
        "CIT331",
        count_electivos_inf_aprobados,
        cant_elect_inf_malla,
    );
    electivos_pasadas_exec(
        lista_secciones,
        oferta_academica,
        &t,
        "CIT34",
        "CIT341",
        count_electivos_tel_aprobados,
        cant_elect_tel_malla,
    );
}

/// Tipo de curso de formación general: la celda empieza con `C` o `B`.
pub open spec fn es_tipo_cfg(t: Seq<char>) -> bool {
    empieza_con_caracter(t, 'C') || empieza_con_caracter(t, 'B')
}

/// La candidata de una fila de cursos de formación general: código en la
/// celda 10, nombre en la 1, sección en la 4, profesor en la 7 y horario a
/// partir de la 6.
pub open spec fn candidata_cfg(f: Seq<Seq<char>>) -> CandidataVista {
    CandidataVista {
        codigo: celda(f, 10),
        cod_ramo: Seq::empty(),
        nombre: celda(f, 1),
        vacantes: Seq::empty(),
        numero: numero_en(f, 4),
        profesor: celda(f, 7),
        horario: horario_cfg(palabras(celda(f, 6))),
    }
}

/// Tope de secciones: al llegar a él se dejan de agregar cursos de
/// formación general.
pub open spec fn tope_secciones() -> nat {
    130
}

/// Lo que hace una fila de cursos de formación general con el estado
/// (lista, detenido): si no se detuvo y la fila es de un curso con código
/// que aún no está en la caja `caja`, lo agrega, y se detiene si la lista
/// llega al tope.
pub open spec fn cfg_de_fila(estado: (Seq<SeccionVista>, bool), f: Seq<Seq<char>>, caja: Seq<char>) -> (
    Seq<SeccionVista>,
    bool,
) {
    let c = candidata_cfg(f);
    if !estado.1 && f.len() > 6 && es_tipo_cfg(f[5]) && c.codigo.len() > 0 && !ya_esta(
        estado.0,
        c.codigo,
        caja,
    ) {
        let l = estado.0.push(seccion_de(c, caja));
        (l, l.len() >= tope_secciones())
    } else {
        estado
    }
}

/// Una pasada por las filas de cursos de formación general con la caja
/// `caja`.
pub open spec fn cfg_vuelta(estado: (Seq<SeccionVista>, bool), filas: Filas, caja: Seq<char>) -> (
    Seq<SeccionVista>,
    bool,
)
    decreases filas.len(),
{
    if filas.len() == 0 {
        estado
    } else {
        cfg_de_fila(cfg_vuelta(estado, filas.drop_last(), caja), filas.last(), caja)
    }
}

/// Las pasadas `desde`, ..., `hasta - 1`; la pasada `z` usa la caja
/// `CFG-` seguida de `z` en decimal.
pub open spec fn cfg_pasadas(estado: (Seq<SeccionVista>, bool), filas: Filas, desde: int, hasta: int) -> (
    Seq<SeccionVista>,
    bool,
)
    decreases hasta - desde,
{
    if hasta <= desde {
        estado
    } else {
        cfg_vuelta(
            cfg_pasadas(estado, filas, desde, hasta - 1),
            filas,
            "CFG-"@ + texto_natural((hasta - 1) as nat),
        )
    }
}

/// Detenido el recorrido, una pasada no cambia nada.
pub proof fn lema_cfg_vuelta_detenida(estado: (Seq<SeccionVista>, bool), filas: Filas, caja: Seq<char>)
    requires
        estado.1,
    ensures
        cfg_vuelta(estado, filas, caja) == estado,
    decreases filas.len(),
{
    if filas.len() > 0 {
        lema_cfg_vuelta_detenida(estado, filas.drop_last(), caja);
    }
}

/// Si el recorrido se detiene en las primeras `i` filas, las demás no
/// cambian nada.
pub proof fn lema_cfg_vuelta_prefijo(
    estado: (Seq<SeccionVista>, bool),
    filas: Filas,
    caja: Seq<char>,
    i: int,
)
    requires
        0 <= i <= filas.len(),
        cfg_vuelta(estado, filas.take(i), caja).1,
    ensures
        cfg_vuelta(estado, filas, caja) == cfg_vuelta(estado, filas.take(i), caja),
    decreases filas.len() - i,
{
    if i < filas.len() {
        assert(filas.take(i + 1).drop_last() =~= filas.take(i));
        lema_cfg_vuelta_prefijo(estado, filas, caja, i + 1);
    } else {
        assert(filas.take(i) =~= filas);
    }
}

/// Detenido el recorrido en la pasada `z`, las pasadas siguientes no
/// cambian nada.
pub proof fn lema_cfg_pasadas_detenidas(
    estado: (Seq<SeccionVista>, bool),
    filas: Filas,
    desde: int,
    z: int,
    hasta: int,
)
    requires
        desde <= z <= hasta,
        cfg_pasadas(estado, filas, desde, z).1,
    ensures
        cfg_pasadas(estado, filas, desde, hasta) == cfg_pasadas(estado, filas, desde, z),
    decreases hasta - z,
{
    if z < hasta {
        lema_cfg_pasadas_detenidas(estado, filas, desde, z, hasta - 1);
        lema_cfg_vuelta_detenida(
            cfg_pasadas(estado, filas, desde, hasta - 1),
            filas,
            "CFG-"@ + texto_natural((hasta - 1) as nat),
        );
    }
}

/// Las celdas de sección de las filas de cursos de formación general se
/// pueden cortar.
pub open spec fn cfg_cortables(filas: Filas) -> bool {
    forall|i: int|
        0 <= i < filas.len() && (#[trigger] filas[i]).len() > 6 && es_tipo_cfg(filas[i][5])
            ==> seccion_cortable(filas[i][4])
}

fn candidata_de_cfg(f: &Vec<String>) -> (r: Candidata)
    requires
        f.len() > 4 ==> seccion_cortable(f[4]@),
    ensures
        vista_candidata(&r) == candidata_cfg(f.deep_view()),
{
    let h = leer_celda(f, 6);
    let p = separar_palabras(h.as_str());
    Candidata {
        codigo: leer_celda(f, 10),
        cod_ramo: String::new(),
        nombre: leer_celda(f, 1),
        vacantes: String::new(),
        numero: leer_numero(f, 4),
        profesor: leer_celda(f, 7),
        horario: horario_desde_palabras(&p, false),
    }
}

fn cfg_vuelta_exec(lista: &mut Vec<Seccion>, filas: &Vec<Vec<String>>, caja: &String) -> (r: bool)
    requires
        cfg_cortables(filas.deep_view()),
    ensures
        (vista_secciones(final(lista)@), r) == cfg_vuelta(
            (vista_secciones(old(lista)@), false),
            filas.deep_view(),
            caja@,
        ),
{
    let ghost inicial = vista_secciones(lista@);
    let ghost fv = filas.deep_view();
    let mut i: usize = 0;
    assert(fv.take(0) =~= Seq::<Seq<Seq<char>>>::empty());
    while i < filas.len()
        invariant
            i <= filas.len(),
            fv == filas.deep_view(),
            cfg_cortables(fv),
            inicial == vista_secciones(old(lista)@),
            (vista_secciones(lista@), false) == cfg_vuelta((inicial, false), fv.take(i as int), caja@),
        decreases filas.len() - i,
    {
        assert(fv.take(i + 1).drop_last() =~= fv.take(i as int));
        assert(fv.take(i + 1).last() == fv[i as int]);
        let f = &filas[i];
        assert(fv[i as int] == f.deep_view());
        if f.len() > 6 {
            assert(f.deep_view()[4] == f[4]@ && f.deep_view()[5] == f[5]@);
            if empieza_con_letra(f[5].as_str(), 'C') || empieza_con_letra(f[5].as_str(), 'B') {
                let c = candidata_de_cfg(f);
                if c.codigo.unicode_len() > 0 && !esta_en(lista, c.codigo.as_str(), caja.as_str()) {
                    let ghost antes = vista_secciones(lista@);
                    let s = construir_seccion(&c, caja);
                    let ghost sv = s@;
                    lista.push(s);
                    assert(vista_secciones(lista@) =~= antes.push(sv));
                    if lista.len() >= 130 {
                        assert(cfg_vuelta((inicial, false), fv.take(i + 1), caja@) == (
                            vista_secciones(lista@),
                            true,
                        ));
                        proof {
                            lema_cfg_vuelta_prefijo((inicial, false), fv, caja@, i + 1);
                            assert(cfg_vuelta((inicial, false), fv, caja@) == (
                                vista_secciones(lista@),
                                true,
                            ));
                        }
                        return true;
                    }
                }
            }
        }
        i = i + 1;
    }
    assert(fv.take(filas.len() as int) =~= fv);
    false
}

/// Agrega los cursos de formación general que faltan: una pasada por cada
/// curso pendiente (desde `cant_cfg_aprobados + 1` hasta `cant_cfg_malla`),
/// cada una con la caja `CFG-` y su número; se detiene al llegar la lista a
/// 130 secciones.
pub fn secciones_cfg(
    lista_secciones: &mut Vec<Seccion>,
    cant_cfg_malla: usize,
    cant_cfg_aprobados: usize,
    _cfg_aprobados: &Vec<String>,
    oferta_cfg: &Vec<Vec<String>>,
)
    requires
        cant_cfg_aprobados < usize::MAX,
        cant_cfg_aprobados < cant_cfg_malla ==> cfg_cortables(oferta_cfg.deep_view()),
    ensures
        vista_secciones(final(lista_secciones)@) == cfg_pasadas(
            (vista_secciones(old(lista_secciones)@), false),
            oferta_cfg.deep_view(),
            cant_cfg_aprobados + 1,
            cant_cfg_malla + 1,
        ).0,
{
    let ghost inicial = vista_secciones(lista_secciones@);
    let ghost fv = oferta_cfg.deep_view();
    let ghost desde = cant_cfg_aprobados + 1;
    let hasta: u128 = cant_cfg_malla as u128 + 1;
    let mut z: u128 = cant_cfg_aprobados as u128 + 1;
    if z >= hasta {
        return;
    }
    while z < hasta
        invariant
            desde <= z <= hasta,
            hasta == cant_cfg_malla + 1,
            desde == cant_cfg_aprobados + 1,
            desde < hasta,
            fv == oferta_cfg.deep_view(),
            cfg_cortables(fv),
            inicial == vista_secciones(old(lista_secciones)@),
            (vista_secciones(lista_secciones@), false) == cfg_pasadas(
                (inicial, false),
                fv,
                desde,
                z as int,
            ),
        decreases hasta - z,
    {
        let caja = caja_numerada("CFG-", z as usize);
        let parado = cfg_vuelta_exec(lista_secciones, oferta_cfg, &caja);
        assert((vista_secciones(lista_secciones@), parado) == cfg_pasadas(
            (inicial, false),
            fv,
            desde,
            z + 1,
        ));
        if parado {
            proof {
                lema_cfg_pasadas_detenidas((inicial, false), fv, desde, z + 1, hasta as int);
                assert(cfg_pasadas((inicial, false), fv, desde, hasta as int).0 == vista_secciones(
                    lista_secciones@,
                ));
            }
            return;
        }
        z = z + 1;
    }
}

/// Lo que calcula `extract_data`: los ramos con su código de referencia, y
/// las secciones de la oferta seguidas de las de electivos y las de cursos
/// de formación general.
pub open spec fn datos_extraidos(
    ramos_disponibles: Seq<(Seq<char>, RamoVista)>,
    oferta: Filas,
    electivos_malla: Filas,
    equivalencias: Filas,
    aprobados: Filas,
    malla_alumno: Filas,
    oferta_cfg: Option<Filas>,
) -> (Seq<SeccionVista>, Seq<(Seq<char>, RamoVista)>) {
    let ramos = ramos_disponibles.map_values(
        |e: (Seq<char>, RamoVista)| con_referencia(e, oferta, equivalencias),
    );
    let l1 = secciones_de_oferta(Seq::empty(), ramos, oferta);
    let l3 = electivos_agregados(
        l1,
        oferta,
        electivos_malla,
        aprobados,
        codigos_con_prefijo(malla_alumno, bytes_cit33()).len() as int,
        codigos_con_prefijo(malla_alumno, bytes_cit34()).len() as int,
        codigos_con_prefijo(aprobados, bytes_cit33()).len() as int,
        codigos_con_prefijo(aprobados, bytes_cit34()).len() as int,
    );
    let l4 = match oferta_cfg {
        Some(f) => cfg_pasadas(
            (l3, false),
            f,
            (codigos_con_prefijo(aprobados, bytes_cfg()).len() + 1) as int,
            (codigos_con_prefijo(malla_alumno, bytes_cfg()).len() + 1) as int,
        ).0,
        None => l3,
    };
    (l4, ramos)
}

/// Vista de una planilla opcional.
pub open spec fn filas_opcionales(o: Option<&Vec<Vec<String>>>) -> Option<Filas> {
    match o {
        Some(f) => Some(f.deep_view()),
        None => None,
    }
}

/// Las planillas de `extract_data` se pueden cortar donde se leen bytes.
pub open spec fn planillas_cortables(
    hay_ramos: bool,
    oferta: Filas,
    aprobados: Filas,
    malla_alumno: Filas,
    oferta_cfg: Option<Filas>,
) -> bool {
    &&& codigos_cortables(malla_alumno, 3)
    &&& codigos_cortables(malla_alumno, 5)
    &&& codigos_cortables(aprobados, 3)
    &&& codigos_cortables(aprobados, 5)
    &&& oferta_cortable(oferta, hay_ramos)
    &&& (codigos_con_prefijo(aprobados, bytes_cit33()).len() < codigos_con_prefijo(
        malla_alumno,
        bytes_cit33(),
    ).len() || codigos_con_prefijo(aprobados, bytes_cit34()).len() < codigos_con_prefijo(
        malla_alumno,
        bytes_cit34(),
    ).len()) ==> electivos_cortables(oferta)
    &&& codigos_con_prefijo(aprobados, bytes_cfg()).len() < usize::MAX
    &&& match oferta_cfg {
        Some(f) => codigos_con_prefijo(aprobados, bytes_cfg()).len() < codigos_con_prefijo(
            malla_alumno,
            bytes_cfg(),
        ).len() ==> cfg_cortables(f),
        None => true,
    }
}

/// Arma la lista de secciones de la ruta crítica a partir de las
/// planillas ya leídas: fija los códigos de referencia de los ramos, recorre
/// la oferta, agrega electivos y cursos de formación general (éstos sólo si
/// se pudo leer su planilla). Devuelve las secciones y los ramos
/// actualizados.
pub fn extract_data(
    ramos_disponibles: MapaRamos,
    oferta_academica: &Vec<Vec<String>>,
    electivos_malla: &Vec<Vec<String>>,
    equivalencia_ramos: &Vec<Vec<String>>,
    ramos_aprobados: &Vec<Vec<String>>,
    malla_alumno: &Vec<Vec<String>>,
    oferta_cfg: Option<&Vec<Vec<String>>>,
) -> (r: (Vec<Seccion>, MapaRamos))
    requires
        planillas_cortables(
            ramos_disponibles@.len() > 0,
            oferta_academica.deep_view(),
            ramos_aprobados.deep_view(),
            malla_alumno.deep_view(),
            filas_opcionales(oferta_cfg),
        ),
    ensures
        (vista_secciones(r.0@), r.1@) == datos_extraidos(
            ramos_disponibles@,
            oferta_academica.deep_view(),
            electivos_malla.deep_view(),
            equivalencia_ramos.deep_view(),
            ramos_aprobados.deep_view(),
            malla_alumno.deep_view(),
            filas_opcionales(oferta_cfg),
        ),
{
    let mut ramos_disponibles = ramos_disponibles;
    let mut lista_secciones: Vec<Seccion> = Vec::new();
    equivalencia(&mut ramos_disponibles, oferta_academica, equivalencia_ramos);
    assert(vista_secciones(lista_secciones@) =~= Seq::<SeccionVista>::empty());
    secciones_de_oferta_exec(&mut lista_secciones, &ramos_disponibles, oferta_academica);
    let (cant_elect_inf_malla, cant_elect_tel_malla) = counter_electivos_malla(malla_alumno);
    let (count_electivos_inf_aprobados, count_electivos_tel_aprobados, electivos_aprobados) =
        counter_electivos_aprobados(ramos_aprobados);
    append_electivos(
        &mut lista_secciones,
        oferta_academica,
        ramos_aprobados,
        electivos_malla,
        cant_elect_inf_malla,
        cant_elect_tel_malla,
        count_electivos_inf_aprobados,
        count_electivos_tel_aprobados,
        &electivos_aprobados,
    );
    let cant_cfg_malla = counter_cfg_malla(malla_alumno);
    let (cant_cfg_aprobados, cfg_aprobados) = counter_cfg_aprobados(ramos_aprobados);
    match oferta_cfg {
        Some(f) => {
            secciones_cfg(&mut lista_secciones, cant_cfg_malla, cant_cfg_aprobados, &cfg_aprobados, f);
        },
        None => {},
    }
    (lista_secciones, ramos_disponibles)
}

/// No hay dos secciones con el mismo par (código, caja).
pub open spec fn pares_distintos(l: Seq<SeccionVista>) -> bool {
    forall|i: int, j: int|
        0 <= i < j < l.len() ==> !(#[trigger] l[i].codigo == #[trigger] l[j].codigo && l[i].codigo_box
            == l[j].codigo_box)
}

/// Ninguna sección desde la posición `n` comparte su par (código, caja)
/// con otra sección de `l`.
pub open spec fn nuevas_distintas(l: Seq<SeccionVista>, n: int) -> bool {
    forall|i: int, j: int|
        0 <= i < l.len() && 0 <= j < l.len() && i != j && (i >= n || j >= n) ==> !(
        #[trigger] l[i].codigo == #[trigger] l[j].codigo && l[i].codigo_box == l[j].codigo_box)
}

/// `r` empieza con las secciones de `l`, en el mismo orden.
pub open spec fn empieza_con_lista(r: Seq<SeccionVista>, l: Seq<SeccionVista>) -> bool {
    l.len() <= r.len() && forall|i: int| 0 <= i < l.len() ==> #[trigger] r[i] == l[i]
}

/// Pares distintos es lo mismo que pares nuevos distintos desde 0.
proof fn lema_distintos_desde_cero(l: Seq<SeccionVista>)
    ensures
        pares_distintos(l) <==> nuevas_distintas(l, 0),
{
    if pares_distintos(l) {
        assert forall|i: int, j: int|
            0 <= i < l.len() && 0 <= j < l.len() && i != j && (i >= 0 || j >= 0) implies !(
            #[trigger] l[i].codigo == #[trigger] l[j].codigo && l[i].codigo_box == l[j].codigo_box) by {
            if i > j {
                assert(!(l[j].codigo == l[i].codigo && l[j].codigo_box == l[i].codigo_box));
            }
        }
    }
}

/// Una lista que empieza con otra que empieza con `l` empieza con `l`.
proof fn lema_empieza_trans(a: Seq<SeccionVista>, b: Seq<SeccionVista>, c: Seq<SeccionVista>)
    requires
        empieza_con_lista(b, a),
        empieza_con_lista(c, b),
    ensures
        empieza_con_lista(c, a),
{
    assert forall|i: int| 0 <= i < a.len() implies #[trigger] c[i] == a[i] by {
        assert(c[i] == b[i]);
    }
}

/// Agregar una sección sólo cuando su par no está conserva la lista como
/// prefijo y los pares nuevos distintos.
pub proof fn lema_agregar_distintos(l: Seq<SeccionVista>, s: SeccionVista, numero: i32, n: int)
    requires
        0 <= n <= l.len(),
        nuevas_distintas(l, n),
    ensures
        empieza_con_lista(agregar(l, s, numero), l),
        nuevas_distintas(agregar(l, s, numero), n),
{
    let r = agregar(l, s, numero);
    if r.len() > l.len() {
        assert forall|i: int, j: int|
            0 <= i < r.len() && 0 <= j < r.len() && i != j && (i >= n || j >= n) implies !(
            #[trigger] r[i].codigo == #[trigger] r[j].codigo && r[i].codigo_box == r[j].codigo_box) by {
            if i == l.len() {
                if r[j].codigo == s.codigo && r[j].codigo_box == s.codigo_box {
                    assert(l[j].codigo == s.codigo);
                    assert(ya_esta(l, s.codigo, s.codigo_box));
                }
            } else if j == l.len() {
                if r[i].codigo == s.codigo && r[i].codigo_box == s.codigo_box {
                    assert(l[i].codigo == s.codigo);
                    assert(ya_esta(l, s.codigo, s.codigo_box));
                }
            } else {
                assert(r[i] == l[i] && r[j] == l[j]);
            }
        }
    }
}

proof fn lema_por_ramos_distintos(
    l: Seq<SeccionVista>,
    ramos: Seq<(Seq<char>, RamoVista)>,
    c: CandidataVista,
    n: int,
)
    requires
        0 <= n <= l.len(),
        nuevas_distintas(l, n),
    ensures
        empieza_con_lista(agregar_por_ramos(l, ramos, c), l),
        nuevas_distintas(agregar_por_ramos(l, ramos, c), n),
    decreases ramos.len(),
{
    if ramos.len() > 0 {
        lema_por_ramos_distintos(l, ramos.drop_last(), c, n);
        let l2 = agregar_por_ramos(l, ramos.drop_last(), c);
        lema_agregar_distintos(l2, seccion_de(c, ramos.last().0), c.numero, n);
        lema_empieza_trans(l, l2, agregar(l2, seccion_de(c, ramos.last().0), c.numero));
    }
}

proof fn lema_oferta_distintos(
    l: Seq<SeccionVista>,
    ramos: Seq<(Seq<char>, RamoVista)>,
    oferta: Filas,
    n: int,
)
    requires
        0 <= n <= l.len(),
        nuevas_distintas(l, n),
    ensures
        empieza_con_lista(secciones_de_oferta(l, ramos, oferta), l),
        nuevas_distintas(secciones_de_oferta(l, ramos, oferta), n),
    decreases oferta.len(),
{
    if oferta.len() > 0 {
        lema_oferta_distintos(l, ramos, oferta.drop_last(), n);
        let l2 = secciones_de_oferta(l, ramos, oferta.drop_last());
        let f = oferta.last();
        lema_por_ramos_distintos(l2, ramos, candidata_catedra(f), n);
        lema_por_ramos_distintos(l2, ramos, candidata_sin_tipo(f), n);
        lema_empieza_trans(l, l2, agregar_por_ramos(l2, ramos, candidata_catedra(f)));
        lema_empieza_trans(l, l2, agregar_por_ramos(l2, ramos, candidata_sin_tipo(f)));
    }
}

proof fn lema_electivos_distintos(
    l: Seq<SeccionVista>,
    oferta: Filas,
    tomables: Seq<Seq<char>>,
    prefijo: Seq<char>,
    raiz: Seq<char>,
    desde: int,
    hasta: int,
    n: int,
)
    requires
        0 <= n <= l.len(),
        nuevas_distintas(l, n),
    ensures
        empieza_con_lista(electivos_pasadas(l, oferta, tomables, prefijo, raiz, desde, hasta), l),
        nuevas_distintas(electivos_pasadas(l, oferta, tomables, prefijo, raiz, desde, hasta), n),
    decreases hasta - desde,
{
    if hasta > desde {
        lema_electivos_distintos(l, oferta, tomables, prefijo, raiz, desde, hasta - 1, n);
        let l2 = electivos_pasadas(l, oferta, tomables, prefijo, raiz, desde, hasta - 1);
        let caja = raiz + texto_natural((hasta - 1) as nat);
        lema_vuelta_distintos(l2, oferta, tomables, prefijo, caja, n);
        lema_empieza_trans(l, l2, electivos_vuelta(l2, oferta, tomables, prefijo, caja));
    }
}

proof fn lema_vuelta_distintos(
    l: Seq<SeccionVista>,
    oferta: Filas,
    tomables: Seq<Seq<char>>,
    prefijo: Seq<char>,
    caja: Seq<char>,
    n: int,
)
    requires
        0 <= n <= l.len(),
        nuevas_distintas(l, n),
    ensures
        empieza_con_lista(electivos_vuelta(l, oferta, tomables, prefijo, caja), l),
        nuevas_distintas(electivos_vuelta(l, oferta, tomables, prefijo, caja), n),
    decreases oferta.len(),
{
    if oferta.len() > 0 {
        lema_vuelta_distintos(l, oferta.drop_last(), tomables, prefijo, caja, n);
        let l2 = electivos_vuelta(l, oferta.drop_last(), tomables, prefijo, caja);
        let c = candidata_catedra(oferta.last());
        lema_agregar_distintos(l2, seccion_de(c, caja), c.numero, n);
        lema_empieza_trans(l, l2, agregar(l2, seccion_de(c, caja), c.numero));
    }
}

proof fn lema_cfg_fila_distintos(
    estado: (Seq<SeccionVista>, bool),
    f: Seq<Seq<char>>,
    caja: Seq<char>,
    n: int,
)
    requires
        0 <= n <= estado.0.len(),
        nuevas_distintas(estado.0, n),
    ensures
        empieza_con_lista(cfg_de_fila(estado, f, caja).0, estado.0),
        nuevas_distintas(cfg_de_fila(estado, f, caja).0, n),
{
    let c = candidata_cfg(f);
    let s = seccion_de(c, caja);
    lema_agregar_distintos(estado.0, s, 0, n);
    if !estado.1 && f.len() > 6 && es_tipo_cfg(f[5]) && c.codigo.len() > 0 && !ya_esta(
        estado.0,
        c.codigo,
        caja,
    ) {
        assert(agregar(estado.0, s, 0) == estado.0.push(s));
    }
}

proof fn lema_cfg_vuelta_distintos(
    estado: (Seq<SeccionVista>, bool),
    filas: Filas,
    caja: Seq<char>,
    n: int,
)
    requires
        0 <= n <= estado.0.len(),
        nuevas_distintas(estado.0, n),
    ensures
        empieza_con_lista(cfg_vuelta(estado, filas, caja).0, estado.0),
        nuevas_distintas(cfg_vuelta(estado, filas, caja).0, n),
    decreases filas.len(),
{
    if filas.len() > 0 {
        lema_cfg_vuelta_distintos(estado, filas.drop_last(), caja, n);
        let e2 = cfg_vuelta(estado, filas.drop_last(), caja);
        lema_cfg_fila_distintos(e2, filas.last(), caja, n);
        lema_empieza_trans(estado.0, e2.0, cfg_de_fila(e2, filas.last(), caja).0);
    }
}

proof fn lema_cfg_pasadas_distintos(
    estado: (Seq<SeccionVista>, bool),
    filas: Filas,
    desde: int,
    hasta: int,
    n: int,
)
    requires
        0 <= n <= estado.0.len(),
        nuevas_distintas(estado.0, n),
    ensures
        empieza_con_lista(cfg_pasadas(estado, filas, desde, hasta).0, estado.0),
        nuevas_distintas(cfg_pasadas(estado, filas, desde, hasta).0, n),
    decreases hasta - desde,
{
    if hasta > desde {
        lema_cfg_pasadas_distintos(estado, filas, desde, hasta - 1, n);
        let e2 = cfg_pasadas(estado, filas, desde, hasta - 1);
        let caja = "CFG-"@ + texto_natural((hasta - 1) as nat);
        lema_cfg_vuelta_distintos(e2, filas, caja, n);
        lema_empieza_trans(estado.0, e2.0, cfg_vuelta(e2, filas, caja).0);
    }
}

/// Las secciones que deja `append_electivos` a partir de `lista`: las
/// pasadas de informática y luego las de telecomunicaciones.
pub open spec fn electivos_agregados(
    lista: Seq<SeccionVista>,
    oferta: Filas,
    electivos_malla: Filas,
    aprobados: Filas,
    cant_inf_malla: int,
    cant_tel_malla: int,
    count_inf_aprobados: int,
    count_tel_aprobados: int,
) -> Seq<SeccionVista> {
    let t = electivos_tomables(electivos_malla, aprobados);
    let inf = electivos_pasadas(
        lista,
        oferta,
        t,
        "CIT33"@,
        "CIT331"@,
        count_inf_aprobados,
        cant_inf_malla,
    );
    electivos_pasadas(inf, oferta, t, "CIT34"@, "CIT341"@, count_tel_aprobados, cant_tel_malla)
}

/// Ley: `append_electivos` sólo agrega secciones al final de la lista,
/// ninguna sección agregada comparte su par (código, caja) con otra, y
/// si los pares de la lista eran distintos lo siguen siendo.
pub proof fn ley_electivos_sin_repetir(
    lista: Seq<SeccionVista>,
    oferta: Filas,
    electivos_malla: Filas,
    aprobados: Filas,
    cant_inf_malla: int,
    cant_tel_malla: int,
    count_inf_aprobados: int,
    count_tel_aprobados: int,
)
    ensures
        ({
            let r = electivos_agregados(
                lista,
                oferta,
                electivos_malla,
                aprobados,
                cant_inf_malla,
                cant_tel_malla,
                count_inf_aprobados,
                count_tel_aprobados,
            );
            &&& empieza_con_lista(r, lista)
            &&& nuevas_distintas(r, lista.len() as int)
            &&& pares_distintos(lista) ==> pares_distintos(r)
        }),
{
    let t = electivos_tomables(electivos_malla, aprobados);
    let inf = electivos_pasadas(lista, oferta, t, "CIT33"@, "CIT331"@, count_inf_aprobados, cant_inf_malla);
    let r = electivos_pasadas(inf, oferta, t, "CIT34"@, "CIT341"@, count_tel_aprobados, cant_tel_malla);
    let n = lista.len() as int;
    lema_electivos_distintos(lista, oferta, t, "CIT33"@, "CIT331"@, count_inf_aprobados, cant_inf_malla, n);
    lema_electivos_distintos(inf, oferta, t, "CIT34"@, "CIT341"@, count_tel_aprobados, cant_tel_malla, n);
    lema_empieza_trans(lista, inf, r);
    if pares_distintos(lista) {
        lema_distintos_desde_cero(lista);
        lema_electivos_distintos(lista, oferta, t, "CIT33"@, "CIT331"@, count_inf_aprobados, cant_inf_malla, 0);
        lema_electivos_distintos(inf, oferta, t, "CIT34"@, "CIT341"@, count_tel_aprobados, cant_tel_malla, 0);
        lema_distintos_desde_cero(r);
    }
}

/// Ley: `secciones_cfg` sólo agrega secciones al final de la lista,
/// ninguna sección agregada comparte su par (código, caja) con otra, y
/// si los pares de la lista eran distintos lo siguen siendo.
pub proof fn ley_cfg_sin_repetir(lista: Seq<SeccionVista>, filas: Filas, desde: int, hasta: int)
    ensures
        ({
            let r = cfg_pasadas((lista, false), filas, desde, hasta).0;
            &&& empieza_con_lista(r, lista)
            &&& nuevas_distintas(r, lista.len() as int)
            &&& pares_distintos(lista) ==> pares_distintos(r)
        }),
{
    let r = cfg_pasadas((lista, false), filas, desde, hasta).0;
    lema_cfg_pasadas_distintos((lista, false), filas, desde, hasta, lista.len() as int);
    if pares_distintos(lista) {
        lema_distintos_desde_cero(lista);
        lema_cfg_pasadas_distintos((lista, false), filas, desde, hasta, 0);
        lema_distintos_desde_cero(r);
    }
}

/// Ley: la lista de secciones que arma `extract_data` nunca tiene dos
/// secciones con el mismo código en la misma caja.
pub proof fn ley_secciones_sin_repetir(
    ramos_disponibles: Seq<(Seq<char>, RamoVista)>,
    oferta: Filas,
    electivos_malla: Filas,
    equivalencias: Filas,
    aprobados: Filas,
    malla_alumno: Filas,
    oferta_cfg: Option<Filas>,
)
    ensures
        pares_distintos(
            datos_extraidos(
                ramos_disponibles,
                oferta,
                electivos_malla,
                equivalencias,
                aprobados,
                malla_alumno,
                oferta_cfg,
            ).0,
        ),
{
    let ramos = ramos_disponibles.map_values(
        |e: (Seq<char>, RamoVista)| con_referencia(e, oferta, equivalencias),
    );
    let vacia = Seq::<SeccionVista>::empty();
    lema_oferta_distintos(vacia, ramos, oferta, 0);
    let l1 = secciones_de_oferta(vacia, ramos, oferta);
    lema_distintos_desde_cero(l1);
    ley_electivos_sin_repetir(
        l1,
        oferta,
        electivos_malla,
        aprobados,
        codigos_con_prefijo(malla_alumno, bytes_cit33()).len() as int,
        codigos_con_prefijo(malla_alumno, bytes_cit34()).len() as int,
        codigos_con_prefijo(aprobados, bytes_cit33()).len() as int,
        codigos_con_prefijo(aprobados, bytes_cit34()).len() as int,
    );
    let l3 = electivos_agregados(
        l1,
        oferta,
        electivos_malla,
        aprobados,
        codigos_con_prefijo(malla_alumno, bytes_cit33()).len() as int,
        codigos_con_prefijo(malla_alumno, bytes_cit34()).len() as int,
        codigos_con_prefijo(aprobados, bytes_cit33()).len() as int,
        codigos_con_prefijo(aprobados, bytes_cit34()).len() as int,
    );
    match oferta_cfg {
        Some(f) => {
            ley_cfg_sin_repetir(
                l3,
                f,
                (codigos_con_prefijo(aprobados, bytes_cfg()).len() + 1) as int,
                (codigos_con_prefijo(malla_alumno, bytes_cfg()).len() + 1) as int,
            );
        },
        None => {},
    }
}

/// Cota del largo mientras se agregan cursos de formación general a una
/// lista que empezó con `largo0` secciones.
pub open spec fn cota_cfg(largo0: nat) -> nat {
    if largo0 < tope_secciones() {
        tope_secciones()
    } else {
        largo0 + 1
    }
}

/// Lo que se mantiene al agregar cursos de formación general: el largo no
/// pasa de la cota, y sin detenerse está bajo el tope o sin cambios.
pub open spec fn cfg_acotado(estado: (Seq<SeccionVista>, bool), largo0: nat) -> bool {
    &&& estado.0.len() <= cota_cfg(largo0)
    &&& !estado.1 ==> (estado.0.len() < tope_secciones() || estado.0.len() == largo0)
}

proof fn lema_cfg_vuelta_acotada(
    estado: (Seq<SeccionVista>, bool),
    filas: Filas,
    caja: Seq<char>,
    largo0: nat,
)
    requires
        cfg_acotado(estado, largo0),
    ensures
        cfg_acotado(cfg_vuelta(estado, filas, caja), largo0),
    decreases filas.len(),
{
    if filas.len() > 0 {
        lema_cfg_vuelta_acotada(estado, filas.drop_last(), caja, largo0);
    }
}

proof fn lema_cfg_pasadas_acotadas(
    estado: (Seq<SeccionVista>, bool),
    filas: Filas,
    desde: int,
    hasta: int,
    largo0: nat,
)
    requires
        cfg_acotado(estado, largo0),
    ensures
        cfg_acotado(cfg_pasadas(estado, filas, desde, hasta), largo0),
    decreases hasta - desde,
{
    if hasta > desde {
        lema_cfg_pasadas_acotadas(estado, filas, desde, hasta - 1, largo0);
        lema_cfg_vuelta_acotada(
            cfg_pasadas(estado, filas, desde, hasta - 1),
            filas,
            "CFG-"@ + texto_natural((hasta - 1) as nat),
            largo0,
        );
    }
}

/// Ley: `secciones_cfg` deja de agregar al llegar a 130 secciones: si la
/// lista tenía menos, termina con 130 a lo sumo; si no, agrega a lo sumo
/// una.
pub proof fn ley_tope_cfg(lista: Seq<SeccionVista>, filas: Filas, desde: int, hasta: int)
    ensures
        cfg_pasadas((lista, false), filas, desde, hasta).0.len() <= cota_cfg(lista.len()),
{
    lema_cfg_pasadas_acotadas((lista, false), filas, desde, hasta, lista.len());
}

/// Ley: fijar los códigos de referencia dos veces da lo mismo que una.
pub proof fn ley_equivalencia_idempotente(
    ramos: Seq<(Seq<char>, RamoVista)>,
    oferta: Filas,
    equivalencias: Filas,
)
    ensures
        ({
            let una = ramos.map_values(
                |e: (Seq<char>, RamoVista)| con_referencia(e, oferta, equivalencias),
            );
            una.map_values(|e: (Seq<char>, RamoVista)| con_referencia(e, oferta, equivalencias))
                == una
        }),
{
    let una = ramos.map_values(
        |e: (Seq<char>, RamoVista)| con_referencia(e, oferta, equivalencias),
    );
    assert(una.map_values(|e: (Seq<char>, RamoVista)| con_referencia(e, oferta, equivalencias))
        =~= una);
}


/// La caja de la pasada `z`: `raiz` seguida de `z` en decimal.
pub open spec fn caja_de(raiz: Seq<char>, z: int) -> Seq<char> {
    raiz + texto_natural(z as nat)
}

/// Agregar una sección de número distinto de 99 deja su par en la lista.
proof fn lema_agregar_queda(l: Seq<SeccionVista>, s: SeccionVista, numero: i32)
    requires
        numero != 99,
    ensures
        ya_esta(agregar(l, s, numero), s.codigo, s.codigo_box),
{
    if ya_esta(l, s.codigo, s.codigo_box) {
        let i = choose|i: int| 0 <= i < l.len() && #[trigger] l[i].codigo == s.codigo && l[i].codigo_box == s.codigo_box;
        assert(agregar(l, s, numero)[i] == l[i]);
    } else {
        let r = agregar(l, s, numero);
        assert(r[l.len() as int] == s);
    }
}

/// Un par que está en una lista sigue estando en cualquier lista que
/// empiece con ella.
proof fn lema_ya_esta_prefijo(l: Seq<SeccionVista>, r: Seq<SeccionVista>, codigo: Seq<char>, caja: Seq<char>)
    requires
        empieza_con_lista(r, l),
        ya_esta(l, codigo, caja),
    ensures
        ya_esta(r, codigo, caja),
{
    let i = choose|i: int| 0 <= i < l.len() && #[trigger] l[i].codigo == codigo && l[i].codigo_box == caja;
    assert(r[i] == l[i]);
}

/// Una fila de la oferta da un electivo de ramo con prefijo `prefijo`:
/// cátedra de más de 7 celdas, de un ramo tomable, con vacantes y de
/// número de sección distinto de 99.
pub open spec fn electivo_califica(f: Seq<Seq<char>>, tomables: Seq<Seq<char>>, prefijo: Seq<char>) -> bool {
    let c = candidata_catedra(f);
    &&& f.len() > 7
    &&& es_catedra(f)
    &&& tomables.contains(c.cod_ramo)
    &&& vacantes_libres(c.vacantes)
    &&& es_prefijo(prefijo, c.cod_ramo)
    &&& c.numero != 99
}

/// `s` es la sección de alguna fila de la oferta que da un electivo, en la
/// caja `caja`.
pub open spec fn electivo_de_oferta(
    s: SeccionVista,
    oferta: Filas,
    tomables: Seq<Seq<char>>,
    prefijo: Seq<char>,
    caja: Seq<char>,
) -> bool {
    exists|i: int|
        0 <= i < oferta.len() && electivo_califica(#[trigger] oferta[i], tomables, prefijo) && s
            == seccion_de(candidata_catedra(oferta[i]), caja)
}

proof fn lema_vuelta_origen(
    l: Seq<SeccionVista>,
    oferta: Filas,
    tomables: Seq<Seq<char>>,
    prefijo: Seq<char>,
    caja: Seq<char>,
)
    ensures
        empieza_con_lista(electivos_vuelta(l, oferta, tomables, prefijo, caja), l),
        forall|k: int|
            l.len() <= k < electivos_vuelta(l, oferta, tomables, prefijo, caja).len()
                ==> electivo_de_oferta(
                #[trigger] electivos_vuelta(l, oferta, tomables, prefijo, caja)[k],
                oferta,
                tomables,
                prefijo,
                caja,
            ),
        forall|i: int|
            0 <= i < oferta.len() && electivo_califica(#[trigger] oferta[i], tomables, prefijo)
                ==> ya_esta(
                electivos_vuelta(l, oferta, tomables, prefijo, caja),
                candidata_catedra(oferta[i]).codigo,
                caja,
            ),
    decreases oferta.len(),
{
    if oferta.len() > 0 {
        let o2 = oferta.drop_last();
        lema_vuelta_origen(l, o2, tomables, prefijo, caja);
        let l2 = electivos_vuelta(l, o2, tomables, prefijo, caja);
        let f = oferta.last();
        let c = candidata_catedra(f);
        let r = electivos_vuelta(l, oferta, tomables, prefijo, caja);
        lema_agregar_distintos(l2, seccion_de(c, caja), c.numero, l2.len() as int);
        lema_empieza_trans(l, l2, r);
        assert forall|k: int| l.len() <= k < r.len() implies electivo_de_oferta(
            #[trigger] r[k],
            oferta,
            tomables,
            prefijo,
            caja,
        ) by {
            if k < l2.len() {
                assert(r[k] == l2[k]);
                assert(electivo_de_oferta(l2[k], o2, tomables, prefijo, caja));
                let i = choose|i: int|
                    0 <= i < o2.len() && electivo_califica(#[trigger] o2[i], tomables, prefijo) && l2[k]
                        == seccion_de(candidata_catedra(o2[i]), caja);
                assert(oferta[i] == o2[i]);
            } else {
                assert(r[k] == seccion_de(c, caja));
                assert(oferta[oferta.len() - 1] == f);
            }
        }
        assert forall|i: int|
            0 <= i < oferta.len() && electivo_califica(#[trigger] oferta[i], tomables, prefijo)
                implies ya_esta(r, candidata_catedra(oferta[i]).codigo, caja) by {
            if i < o2.len() {
                assert(o2[i] == oferta[i]);
                lema_ya_esta_prefijo(l2, r, candidata_catedra(oferta[i]).codigo, caja);
            } else {
                assert(oferta[i] == f);
                lema_agregar_queda(l2, seccion_de(c, caja), c.numero);
            }
        }
    }
}

/// Ley: cada sección que agrega una pasada de electivos viene de una fila
/// de la oferta que da un electivo, en la caja de alguna de las pasadas; y
/// cada fila que da un electivo queda, para cada pasada, con su código en
/// la caja de esa pasada.
pub proof fn ley_electivos_origen(
    l: Seq<SeccionVista>,
    oferta: Filas,
    tomables: Seq<Seq<char>>,
    prefijo: Seq<char>,
    raiz: Seq<char>,
    desde: int,
    hasta: int,
)
    requires
        0 <= desde,
    ensures
        empieza_con_lista(electivos_pasadas(l, oferta, tomables, prefijo, raiz, desde, hasta), l),
        forall|k: int|
            l.len() <= k < electivos_pasadas(l, oferta, tomables, prefijo, raiz, desde, hasta).len()
                ==> exists|z: int|
                desde <= z < hasta && electivo_de_oferta(
                    #[trigger] electivos_pasadas(l, oferta, tomables, prefijo, raiz, desde, hasta)[k],
                    oferta,
                    tomables,
                    prefijo,
                    #[trigger] caja_de(raiz, z),
                ),
        forall|i: int, z: int|
            0 <= i < oferta.len() && desde <= z < hasta && electivo_califica(
                #[trigger] oferta[i],
                tomables,
                prefijo,
            ) ==> ya_esta(
                electivos_pasadas(l, oferta, tomables, prefijo, raiz, desde, hasta),
                candidata_catedra(oferta[i]).codigo,
                #[trigger] caja_de(raiz, z),
            ),
    decreases hasta - desde,
{
    if hasta > desde {
        ley_electivos_origen(l, oferta, tomables, prefijo, raiz, desde, hasta - 1);
        let l2 = electivos_pasadas(l, oferta, tomables, prefijo, raiz, desde, hasta - 1);
        let caja = caja_de(raiz, hasta - 1);
        assert(caja == raiz + texto_natural((hasta - 1) as nat));
        let r = electivos_pasadas(l, oferta, tomables, prefijo, raiz, desde, hasta);
        assert(r == electivos_vuelta(l2, oferta, tomables, prefijo, caja));
        lema_vuelta_origen(l2, oferta, tomables, prefijo, caja);
        lema_empieza_trans(l, l2, r);
        assert forall|k: int| l.len() <= k < r.len() implies exists|z: int|
            desde <= z < hasta && electivo_de_oferta(
                #[trigger] r[k],
                oferta,
                tomables,
                prefijo,
                #[trigger] caja_de(raiz, z),
            ) by {
            if k < l2.len() {
                assert(r[k] == l2[k]);
                let z = choose|z: int|
                    desde <= z < hasta - 1 && electivo_de_oferta(
                        #[trigger] l2[k],
                        oferta,
                        tomables,
                        prefijo,
                        #[trigger] caja_de(raiz, z),
                    );
                assert(electivo_de_oferta(r[k], oferta, tomables, prefijo, caja_de(raiz, z)));
            } else {
                assert(electivo_de_oferta(r[k], oferta, tomables, prefijo, caja_de(raiz, hasta - 1)));
            }
        }
        assert forall|i: int, z: int|
            0 <= i < oferta.len() && desde <= z < hasta && electivo_califica(
                #[trigger] oferta[i],
                tomables,
                prefijo,
            ) implies ya_esta(r, candidata_catedra(oferta[i]).codigo, #[trigger] caja_de(raiz, z)) by {
            if z < hasta - 1 {
                lema_ya_esta_prefijo(l2, r, candidata_catedra(oferta[i]).codigo, caja_de(raiz, z));
            }
        }
    }
}


/// Una fila de cursos de formación general da una sección: tiene más de 6
/// celdas, su tipo empieza con `C` o `B` y su código no es vacío.
pub open spec fn cfg_califica(f: Seq<Seq<char>>) -> bool {
    &&& f.len() > 6
    &&& es_tipo_cfg(f[5])
    &&& candidata_cfg(f).codigo.len() > 0
}

/// `s` es la sección de alguna fila de cursos de formación general que da
/// una sección, en la caja `caja`.
pub open spec fn cfg_de_oferta(s: SeccionVista, filas: Filas, caja: Seq<char>) -> bool {
    exists|i: int|
        0 <= i < filas.len() && cfg_califica(#[trigger] filas[i]) && s == seccion_de(
            candidata_cfg(filas[i]),
            caja,
        )
}

proof fn lema_cfg_fila_origen(estado: (Seq<SeccionVista>, bool), f: Seq<Seq<char>>, caja: Seq<char>)
    ensures
        empieza_con_lista(cfg_de_fila(estado, f, caja).0, estado.0),
        cfg_de_fila(estado, f, caja).0.len() <= estado.0.len() + 1,
        cfg_de_fila(estado, f, caja).0.len() > estado.0.len() ==> cfg_de_fila(estado, f, caja).0.last()
            == seccion_de(candidata_cfg(f), caja) && cfg_califica(f),
        !cfg_de_fila(estado, f, caja).1 ==> !estado.1,
        !estado.1 && cfg_califica(f) ==> ya_esta(
            cfg_de_fila(estado, f, caja).0,
            candidata_cfg(f).codigo,
            caja,
        ),
{
    lema_cfg_fila_distintos(estado, f, caja, estado.0.len() as int);
    let c = candidata_cfg(f);
    let s = seccion_de(c, caja);
    if !estado.1 && cfg_califica(f) {
        if ya_esta(estado.0, c.codigo, caja) {
            assert(cfg_de_fila(estado, f, caja) == estado);
        } else {
            let l = estado.0.push(s);
            assert(cfg_de_fila(estado, f, caja).0 == l);
            assert(l[estado.0.len() as int] == s);
            assert(l[estado.0.len() as int].codigo == c.codigo && l[estado.0.len() as int].codigo_box
                == caja);
        }
    }
}

proof fn lema_cfg_vuelta_origen(estado: (Seq<SeccionVista>, bool), filas: Filas, caja: Seq<char>)
    ensures
        empieza_con_lista(cfg_vuelta(estado, filas, caja).0, estado.0),
        forall|k: int|
            estado.0.len() <= k < cfg_vuelta(estado, filas, caja).0.len() ==> cfg_de_oferta(
                #[trigger] cfg_vuelta(estado, filas, caja).0[k],
                filas,
                caja,
            ),
        !cfg_vuelta(estado, filas, caja).1 ==> !estado.1,
        !cfg_vuelta(estado, filas, caja).1 ==> forall|i: int|
            0 <= i < filas.len() && cfg_califica(#[trigger] filas[i]) ==> ya_esta(
                cfg_vuelta(estado, filas, caja).0,
                candidata_cfg(filas[i]).codigo,
                caja,
            ),
    decreases filas.len(),
{
    if filas.len() > 0 {
        let f2 = filas.drop_last();
        lema_cfg_vuelta_origen(estado, f2, caja);
        let e2 = cfg_vuelta(estado, f2, caja);
        let f = filas.last();
        let r = cfg_de_fila(e2, f, caja);
        lema_cfg_fila_origen(e2, f, caja);
        lema_empieza_trans(estado.0, e2.0, r.0);
        assert forall|k: int| estado.0.len() <= k < r.0.len() implies cfg_de_oferta(
            #[trigger] r.0[k],
            filas,
            caja,
        ) by {
            if k < e2.0.len() {
                assert(r.0[k] == e2.0[k]);
                assert(cfg_de_oferta(e2.0[k], f2, caja));
                let i = choose|i: int|
                    0 <= i < f2.len() && cfg_califica(#[trigger] f2[i]) && e2.0[k] == seccion_de(
                        candidata_cfg(f2[i]),
                        caja,
                    );
                assert(filas[i] == f2[i]);
            } else {
                assert(k == e2.0.len());
                assert(r.0[k] == r.0.last());
                assert(filas[filas.len() - 1] == f);
            }
        }
        if !r.1 {
            assert forall|i: int| 0 <= i < filas.len() && cfg_califica(#[trigger] filas[i]) implies ya_esta(
                r.0,
                candidata_cfg(filas[i]).codigo,
                caja,
            ) by {
                if i < f2.len() {
                    assert(f2[i] == filas[i]);
                    lema_ya_esta_prefijo(e2.0, r.0, candidata_cfg(filas[i]).codigo, caja);
                } else {
                    assert(filas[i] == f);
                }
            }
        }
    }
}

/// Ley: cada sección que agregan las pasadas de cursos de formación
/// general viene de una fila que da una sección, en la caja `CFG-` de
/// alguna de las pasadas; y si el recorrido no se detuvo por el tope,
/// cada fila que da una sección queda, para cada pasada, con su código en
/// la caja de esa pasada.
pub proof fn ley_cfg_origen(
    estado: (Seq<SeccionVista>, bool),
    filas: Filas,
    desde: int,
    hasta: int,
)
    requires
        0 <= desde,
    ensures
        empieza_con_lista(cfg_pasadas(estado, filas, desde, hasta).0, estado.0),
        forall|k: int|
            estado.0.len() <= k < cfg_pasadas(estado, filas, desde, hasta).0.len() ==> exists|z: int|
                desde <= z < hasta && cfg_de_oferta(
                    #[trigger] cfg_pasadas(estado, filas, desde, hasta).0[k],
                    filas,
                    #[trigger] caja_de("CFG-"@, z),
                ),
        !cfg_pasadas(estado, filas, desde, hasta).1 ==> !estado.1,
        !cfg_pasadas(estado, filas, desde, hasta).1 ==> forall|i: int, z: int|
            0 <= i < filas.len() && desde <= z < hasta && cfg_califica(#[trigger] filas[i])
                ==> ya_esta(
                cfg_pasadas(estado, filas, desde, hasta).0,
                candidata_cfg(filas[i]).codigo,
                #[trigger] caja_de("CFG-"@, z),
            ),
    decreases hasta - desde,
{
    if hasta > desde {
        ley_cfg_origen(estado, filas, desde, hasta - 1);
        let e2 = cfg_pasadas(estado, filas, desde, hasta - 1);
        let caja = caja_de("CFG-"@, hasta - 1);
        assert(caja == "CFG-"@ + texto_natural((hasta - 1) as nat));
        let r = cfg_pasadas(estado, filas, desde, hasta);
        assert(r == cfg_vuelta(e2, filas, caja));
        lema_cfg_vuelta_origen(e2, filas, caja);
        lema_empieza_trans(estado.0, e2.0, r.0);
        assert forall|k: int| estado.0.len() <= k < r.0.len() implies exists|z: int|
            desde <= z < hasta && cfg_de_oferta(
                #[trigger] r.0[k],
                filas,
                #[trigger] caja_de("CFG-"@, z),
            ) by {
            if k < e2.0.len() {
                assert(r.0[k] == e2.0[k]);
                let z = choose|z: int|
                    desde <= z < hasta - 1 && cfg_de_oferta(
                        #[trigger] e2.0[k],
                        filas,
                        #[trigger] caja_de("CFG-"@, z),
                    );
                assert(cfg_de_oferta(r.0[k], filas, caja_de("CFG-"@, z)));
            } else {
                assert(cfg_de_oferta(r.0[k], filas, caja_de("CFG-"@, hasta - 1)));
            }
        }
        if !r.1 {
            assert forall|i: int, z: int|
                0 <= i < filas.len() && desde <= z < hasta && cfg_califica(#[trigger] filas[i])
                    implies ya_esta(r.0, candidata_cfg(filas[i]).codigo, #[trigger] caja_de("CFG-"@, z)) by {
                if z < hasta - 1 {
                    lema_ya_esta_prefijo(e2.0, r.0, candidata_cfg(filas[i]).codigo, caja_de("CFG-"@, z));
                }
            }
        }
    }
}


/// La candidata que da una fila de la oferta: la de cátedra si su tipo
/// empieza con `C`, la de fila sin tipo si no tiene tipo; ninguna si la
/// fila es vacía o de otro tipo.
pub open spec fn candidata_de_fila(f: Seq<Seq<char>>) -> Option<CandidataVista> {
    if f.len() == 0 {
        None
    } else if celda(f, 5).len() > 0 {
        if es_catedra(f) {
            Some(candidata_catedra(f))
        } else {
            None
        }
    } else {
        Some(candidata_sin_tipo(f))
    }
}

/// La candidata `c` da una sección en la caja del ramo `e`: su ramo es el
/// código de referencia de `e`, tiene vacantes y su número no es 99.
pub open spec fn cruza_con_ramo(c: CandidataVista, e: (Seq<char>, RamoVista)) -> bool {
    c.cod_ramo == referencia_de(e) && vacantes_libres(c.vacantes) && c.numero != 99
}

/// `s` es la sección de alguna fila de la oferta cruzada con alguno de
/// los ramos, en la caja de ese ramo.
pub open spec fn seccion_de_oferta(
    s: SeccionVista,
    ramos: Seq<(Seq<char>, RamoVista)>,
    oferta: Filas,
) -> bool {
    exists|i: int, j: int|
        0 <= i < oferta.len() && 0 <= j < ramos.len() && (#[trigger] candidata_de_fila(oferta[i]))
            is Some && cruza_con_ramo(candidata_de_fila(oferta[i])->0, #[trigger] ramos[j]) && s
            == seccion_de(candidata_de_fila(oferta[i])->0, ramos[j].0)
}

proof fn lema_por_ramos_origen(
    l: Seq<SeccionVista>,
    ramos: Seq<(Seq<char>, RamoVista)>,
    c: CandidataVista,
)
    ensures
        empieza_con_lista(agregar_por_ramos(l, ramos, c), l),
        forall|k: int|
            l.len() <= k < agregar_por_ramos(l, ramos, c).len() ==> exists|j: int|
                0 <= j < ramos.len() && cruza_con_ramo(c, #[trigger] ramos[j])
                    && #[trigger] agregar_por_ramos(l, ramos, c)[k] == seccion_de(c, ramos[j].0),
        forall|j: int|
            0 <= j < ramos.len() && cruza_con_ramo(c, #[trigger] ramos[j]) ==> ya_esta(
                agregar_por_ramos(l, ramos, c),
                c.codigo,
                ramos[j].0,
            ),
    decreases ramos.len(),
{
    if ramos.len() > 0 {
        let r2 = ramos.drop_last();
        lema_por_ramos_origen(l, r2, c);
        let l2 = agregar_por_ramos(l, r2, c);
        let e = ramos.last();
        let r = agregar_por_ramos(l, ramos, c);
        lema_agregar_distintos(l2, seccion_de(c, e.0), c.numero, l2.len() as int);
        lema_empieza_trans(l, l2, r);
        assert forall|k: int| l.len() <= k < r.len() implies exists|j: int|
            0 <= j < ramos.len() && cruza_con_ramo(c, #[trigger] ramos[j]) && #[trigger] r[k]
                == seccion_de(c, ramos[j].0) by {
            if k < l2.len() {
                assert(r[k] == l2[k]);
                let j = choose|j: int|
                    0 <= j < r2.len() && cruza_con_ramo(c, #[trigger] r2[j]) && #[trigger] l2[k]
                        == seccion_de(c, r2[j].0);
                assert(ramos[j] == r2[j]);
            } else {
                assert(r[k] == seccion_de(c, e.0));
                assert(ramos[ramos.len() - 1] == e);
            }
        }
        assert forall|j: int| 0 <= j < ramos.len() && cruza_con_ramo(c, #[trigger] ramos[j]) implies ya_esta(
            r,
            c.codigo,
            ramos[j].0,
        ) by {
            if j < r2.len() {
                assert(r2[j] == ramos[j]);
                lema_ya_esta_prefijo(l2, r, c.codigo, ramos[j].0);
            } else {
                assert(ramos[j] == e);
                lema_agregar_queda(l2, seccion_de(c, e.0), c.numero);
            }
        }
    }
}

/// Ley: cada sección que agregan las filas de la oferta es la de una
/// fila cruzada con un ramo cuyo código de referencia es el de la fila, en
/// la caja de ese ramo; y cada fila y ramo que se cruzan quedan con el
/// código de la fila en la caja del ramo.
pub proof fn ley_oferta_origen(
    lista: Seq<SeccionVista>,
    ramos: Seq<(Seq<char>, RamoVista)>,
    oferta: Filas,
)
    ensures
        empieza_con_lista(secciones_de_oferta(lista, ramos, oferta), lista),
        forall|k: int|
            lista.len() <= k < secciones_de_oferta(lista, ramos, oferta).len() ==> seccion_de_oferta(
                #[trigger] secciones_de_oferta(lista, ramos, oferta)[k],
                ramos,
                oferta,
            ),
        forall|i: int, j: int|
            0 <= i < oferta.len() && 0 <= j < ramos.len() && (#[trigger] candidata_de_fila(oferta[i])) is Some
                && cruza_con_ramo(candidata_de_fila(oferta[i])->0, #[trigger] ramos[j]) ==> ya_esta(
                secciones_de_oferta(lista, ramos, oferta),
                (candidata_de_fila(oferta[i])->0).codigo,
                ramos[j].0,
            ),
    decreases oferta.len(),
{
    if oferta.len() > 0 {
        let o2 = oferta.drop_last();
        ley_oferta_origen(lista, ramos, o2);
        let l2 = secciones_de_oferta(lista, ramos, o2);
        let f = oferta.last();
        let r = secciones_de_oferta(lista, ramos, oferta);
        assert(r == secciones_de_fila(l2, ramos, f));
        match candidata_de_fila(f) {
            Some(c) => {
                assert(r == agregar_por_ramos(l2, ramos, c));
                lema_por_ramos_origen(l2, ramos, c);
            },
            None => {
                assert(r == l2);
            },
        }
        lema_empieza_trans(lista, l2, r);
        assert forall|k: int| lista.len() <= k < r.len() implies seccion_de_oferta(
            #[trigger] r[k],
            ramos,
            oferta,
        ) by {
            if k < l2.len() {
                assert(r[k] == l2[k]);
                assert(seccion_de_oferta(l2[k], ramos, o2));
                let (i, j) = choose|i: int, j: int|
                    0 <= i < o2.len() && 0 <= j < ramos.len() && (#[trigger] candidata_de_fila(o2[i]))
                        is Some && cruza_con_ramo(candidata_de_fila(o2[i])->0, #[trigger] ramos[j])
                        && l2[k] == seccion_de(candidata_de_fila(o2[i])->0, ramos[j].0);
                assert(oferta[i] == o2[i]);
                assert(candidata_de_fila(oferta[i]) is Some);
            } else {
                let c = candidata_de_fila(f)->0;
                let j = choose|j: int|
                    0 <= j < ramos.len() && cruza_con_ramo(c, #[trigger] ramos[j])
                        && #[trigger] agregar_por_ramos(l2, ramos, c)[k] == seccion_de(c, ramos[j].0);
                let i = oferta.len() - 1;
                assert(oferta[i] == f);
                assert(candidata_de_fila(oferta[i]) is Some);
            }
        }
        assert forall|i: int, j: int|
            0 <= i < oferta.len() && 0 <= j < ramos.len() && (#[trigger] candidata_de_fila(oferta[i])) is Some
                && cruza_con_ramo(candidata_de_fila(oferta[i])->0, #[trigger] ramos[j]) implies ya_esta(
            r,
            (candidata_de_fila(oferta[i])->0).codigo,
            ramos[j].0,
        ) by {
            if i < o2.len() {
                assert(o2[i] == oferta[i]);
                assert(candidata_de_fila(o2[i]) is Some);
                lema_ya_esta_prefijo(l2, r, (candidata_de_fila(oferta[i])->0).codigo, ramos[j].0);
            } else {
                assert(oferta[i] == f);
            }
        }
    }
}


/// La fila `p` es la primera de la oferta que nombra el ramo `k` en su
/// segunda celda.
pub open spec fn es_primera_fila(oferta: Filas, k: Seq<char>, p: int) -> bool {
    &&& 0 <= p < oferta.len()
    &&& oferta[p].len() > 1
    &&& oferta[p][1] == k
    &&& forall|q: int| 0 <= q < p ==> !(oferta[q].len() > 1 && #[trigger] oferta[q][1] == k)
}

/// Ninguna fila de la oferta nombra el ramo `k` en su segunda celda.
pub open spec fn sin_fila(oferta: Filas, k: Seq<char>) -> bool {
    forall|q: int| 0 <= q < oferta.len() ==> !(oferta[q].len() > 1 && #[trigger] oferta[q][1] == k)
}

/// La fila `j` es la última de al menos dos celdas de la planilla de
/// equivalencias que empieza con `k`.
pub open spec fn es_ultima_equivalencia(eq: Filas, k: Seq<char>, j: int) -> bool {
    &&& 0 <= j < eq.len()
    &&& eq[j].len() >= 2
    &&& eq[j][0] == k
    &&& forall|q: int| j < q < eq.len() ==> !(eq[q].len() >= 2 && #[trigger] eq[q][0] == k)
}

/// Ninguna fila de al menos dos celdas de la planilla de equivalencias
/// empieza con `k`.
pub open spec fn sin_equivalencia(eq: Filas, k: Seq<char>) -> bool {
    forall|q: int| 0 <= q < eq.len() ==> !(eq[q].len() >= 2 && #[trigger] eq[q][0] == k)
}

proof fn lema_primera_fila(oferta: Filas, k: Seq<char>, i: int, p: int)
    requires
        0 <= i <= p,
        es_primera_fila(oferta, k, p),
    ensures
        primera_fila_desde(oferta, k, i) == Some(p),
    decreases p - i,
{
    if i < p {
        assert(!(oferta[i].len() > 1 && oferta[i][1] == k));
        lema_primera_fila(oferta, k, i + 1, p);
    }
}

proof fn lema_sin_fila(oferta: Filas, k: Seq<char>, i: int)
    requires
        0 <= i,
        sin_fila(oferta, k),
    ensures
        primera_fila_desde(oferta, k, i) is None,
    decreases oferta.len() - i,
{
    if i < oferta.len() {
        assert(!(oferta[i].len() > 1 && oferta[i][1] == k));
        lema_sin_fila(oferta, k, i + 1);
    }
}

proof fn lema_ultima_equivalencia(eq: Filas, k: Seq<char>, j: int, h: int)
    requires
        es_ultima_equivalencia(eq, k, j),
        j < h <= eq.len(),
    ensures
        equivalencia_hasta(eq, k, h) == Some(eq[j][1]),
    decreases h,
{
    if h - 1 > j {
        assert(!(eq[h - 1].len() >= 2 && eq[h - 1][0] == k));
        lema_ultima_equivalencia(eq, k, j, h - 1);
    }
}

proof fn lema_sin_equivalencia(eq: Filas, k: Seq<char>, h: int)
    requires
        sin_equivalencia(eq, k),
        h <= eq.len(),
    ensures
        equivalencia_hasta(eq, k, h) is None,
    decreases h,
{
    if h > 0 {
        assert(!(eq[h - 1].len() >= 2 && eq[h - 1][0] == k));
        lema_sin_equivalencia(eq, k, h - 1);
    }
}

/// Ley: `equivalencia` sólo cambia el `codigo_ref` de cada ramo `k`. Si la
/// primera fila de la oferta que nombra `k` tiene horario (octava celda no
/// vacía), queda `k`. Si no, cuando ninguna fila nombra `k` o la primera
/// no tiene horario, queda el equivalente de la última fila de
/// equivalencias que empieza con `k`, o `k` si no hay tal fila.
pub proof fn ley_codigo_ref(
    ramos: Seq<(Seq<char>, RamoVista)>,
    oferta: Filas,
    eq: Filas,
    n: int,
    p: int,
    j: int,
)
    requires
        0 <= n < ramos.len(),
    ensures
        ({
            let r = ramos.map_values(|e: (Seq<char>, RamoVista)| con_referencia(e, oferta, eq))[n];
            let k = ramos[n].0;
            let sin_horario = sin_fila(oferta, k) || (es_primera_fila(oferta, k, p) && (
            oferta[p].len() <= 7 || oferta[p][7].len() == 0));
            &&& r.0 == k
            &&& r.1 == RamoVista { codigo_ref: r.1.codigo_ref, ..ramos[n].1 }
            &&& es_primera_fila(oferta, k, p) && oferta[p].len() > 7 && oferta[p][7].len() > 0
                ==> r.1.codigo_ref == Some(k)
            &&& sin_horario && es_ultima_equivalencia(eq, k, j) ==> r.1.codigo_ref == Some(eq[j][1])
            &&& sin_horario && sin_equivalencia(eq, k) ==> r.1.codigo_ref == Some(k)
        }),
{
    let k = ramos[n].0;
    if es_primera_fila(oferta, k, p) {
        lema_primera_fila(oferta, k, 0, p);
    }
    if sin_fila(oferta, k) {
        lema_sin_fila(oferta, k, 0);
    }
    if es_ultima_equivalencia(eq, k, j) {
        lema_ultima_equivalencia(eq, k, j, eq.len() as int);
    }
    if sin_equivalencia(eq, k) {
        lema_sin_equivalencia(eq, k, eq.len() as int);
    }
}


/// Ley: el horario de una cátedra según cuántas palabras tiene su celda:
/// con 4 (`día hora - hora`), un bloque `p0 p1`; con 5 (`día día hora -
/// hora`), `p0 p2` y `p1 p2`; con 6 (tres días), `p0 p3`, `p1 p3` y `p2
/// p3`; con 8 (dos días con sus horas), `p0 p1` y `p4 p5`; con otra
/// cantidad, ninguno. Un curso de formación general se lee igual, salvo
/// con 6 palabras, que no dan ninguno.
pub proof fn ley_horario_catedra(p: Seq<Seq<char>>)
    ensures
        p.len() == 4 ==> horario_catedra(p) == seq![p[0] + seq![' '] + p[1]],
        p.len() == 5 ==> horario_catedra(p) == seq![
            p[0] + seq![' '] + p[2],
            p[1] + seq![' '] + p[2],
        ],
        p.len() == 6 ==> horario_catedra(p) == seq![
            p[0] + seq![' '] + p[3],
            p[1] + seq![' '] + p[3],
            p[2] + seq![' '] + p[3],
        ],
        p.len() == 8 ==> horario_catedra(p) == seq![
            p[0] + seq![' '] + p[1],
            p[4] + seq![' '] + p[5],
        ],
        p.len() != 4 && p.len() != 5 && p.len() != 6 && p.len() != 8 ==> horario_catedra(p).len()
            == 0,
        p.len() == 6 ==> horario_cfg(p).len() == 0,
        p.len() != 6 ==> horario_cfg(p) == horario_catedra(p),
{
}


/// Hay vacantes libres en la fila: su celda 12 es un entero mayor que 0.
pub open spec fn fila_con_vacantes(f: Seq<Seq<char>>) -> bool {
    match lectura_i32(encode_utf8(celda(f, 12))) {
        Some(v) => v > 0,
        None => false,
    }
}

/// `s` es la sección de la fila de cátedra `f` en la caja `caja`, leída de
/// sus celdas: código de la 4, nombre de la 2, número de sección de la 3,
/// horario de las palabras de la 7 y profesor de la 9.
pub open spec fn es_seccion_de_catedra(s: SeccionVista, f: Seq<Seq<char>>, caja: Seq<char>) -> bool {
    &&& s.codigo == celda(f, 4)
    &&& s.nombre == celda(f, 2)
    &&& s.seccion == texto_entero(numero_en(f, 3) as int)
    &&& s.horario == horario_catedra(palabras(celda(f, 7)))
    &&& s.profesor == celda(f, 9)
    &&& s.codigo_box == caja
}

/// Ley: cada sección `k` que agregan las pasadas de electivos sale de una
/// fila de cátedra de la oferta de más de 7 celdas, de un ramo tomable que
/// empieza con `prefijo`, con vacantes libres y número de sección distinto
/// de 99, leída de sus celdas en la caja de una de las pasadas.
pub proof fn ley_electivos_de_la_oferta(
    lista: Seq<SeccionVista>,
    oferta: Filas,
    tomables: Seq<Seq<char>>,
    prefijo: Seq<char>,
    raiz: Seq<char>,
    desde: int,
    hasta: int,
    k: int,
)
    requires
        0 <= desde,
        lista.len() <= k < electivos_pasadas(lista, oferta, tomables, prefijo, raiz, desde, hasta).len(),
    ensures
        exists|i: int, z: int|
                0 <= i < oferta.len() && desde <= z < hasta && #[trigger] oferta[i].len() > 7
                    && es_catedra(oferta[i]) && tomables.contains(celda(oferta[i], 1)) && es_prefijo(
                    prefijo,
                    celda(oferta[i], 1),
                ) && fila_con_vacantes(oferta[i]) && numero_en(oferta[i], 3) != 99
                    && es_seccion_de_catedra(
                    electivos_pasadas(lista, oferta, tomables, prefijo, raiz, desde, hasta)[k],
                    oferta[i],
                    #[trigger] caja_de(raiz, z),
                ),
{
    ley_electivos_origen(lista, oferta, tomables, prefijo, raiz, desde, hasta);
    let r = electivos_pasadas(lista, oferta, tomables, prefijo, raiz, desde, hasta);
    {
        let z = choose|z: int|
            desde <= z < hasta && electivo_de_oferta(
                #[trigger] r[k],
                oferta,
                tomables,
                prefijo,
                #[trigger] caja_de(raiz, z),
            );
        let caja = caja_de(raiz, z);
        let i = choose|i: int|
            0 <= i < oferta.len() && electivo_califica(#[trigger] oferta[i], tomables, prefijo) && r[k]
                == seccion_de(candidata_catedra(oferta[i]), caja);
        assert(oferta[i].len() > 7);
    }
}

/// Ley: cada sección `k` que agregan las pasadas de cursos de formación
/// general sale de una fila de más de 6 celdas cuyo tipo empieza con `C` o
/// `B` y cuyo código (celda 10) no es vacío, leída de sus celdas: código
/// de la 10, nombre de la 1, número de sección de la 4, horario de las
/// palabras de la 6, profesor de la 7, en la caja `CFG-` de una de las
/// pasadas.
pub proof fn ley_cfg_de_la_planilla(
    estado: (Seq<SeccionVista>, bool),
    filas: Filas,
    desde: int,
    hasta: int,
    k: int,
)
    requires
        0 <= desde,
        estado.0.len() <= k < cfg_pasadas(estado, filas, desde, hasta).0.len(),
    ensures
        exists|i: int, z: int|
                0 <= i < filas.len() && desde <= z < hasta && #[trigger] filas[i].len() > 6
                    && es_tipo_cfg(filas[i][5]) && celda(filas[i], 10).len() > 0 && ({
                    let s = cfg_pasadas(estado, filas, desde, hasta).0[k];
                    &&& s.codigo == celda(filas[i], 10)
                    &&& s.nombre == celda(filas[i], 1)
                    &&& s.seccion == texto_entero(numero_en(filas[i], 4) as int)
                    &&& s.horario == horario_cfg(palabras(celda(filas[i], 6)))
                    &&& s.profesor == celda(filas[i], 7)
                    &&& s.codigo_box == #[trigger] caja_de("CFG-"@, z)
                }),
{
    ley_cfg_origen(estado, filas, desde, hasta);
    let r = cfg_pasadas(estado, filas, desde, hasta).0;
    {
        let z = choose|z: int|
            desde <= z < hasta && cfg_de_oferta(#[trigger] r[k], filas, #[trigger] caja_de("CFG-"@, z));
        let caja = caja_de("CFG-"@, z);
        let i = choose|i: int|
            0 <= i < filas.len() && cfg_califica(#[trigger] filas[i]) && r[k] == seccion_de(
                candidata_cfg(filas[i]),
                caja,
            );
        assert(filas[i].len() > 6);
    }
}

/// Ley: cada sección `k` que agregan las filas de la oferta sale de una fila
/// con vacantes libres y número de sección distinto de 99, cruzada con un
/// ramo cuyo código de referencia es la segunda celda de la fila, en la
/// caja de ese ramo. Si la fila es de cátedra, la sección se lee de sus
/// celdas como en `es_seccion_de_catedra`; si no tiene tipo, su código es
/// la celda 0, su nombre la 1, su número de sección la 3, su profesor la 7
/// y no tiene horario.
pub proof fn ley_oferta_de_las_filas(
    lista: Seq<SeccionVista>,
    ramos: Seq<(Seq<char>, RamoVista)>,
    oferta: Filas,
    k: int,
)
    requires
        lista.len() <= k < secciones_de_oferta(lista, ramos, oferta).len(),
    ensures
        exists|i: int, j: int|
                0 <= i < oferta.len() && 0 <= j < ramos.len() && oferta[i].len() > 0
                    && fila_con_vacantes(#[trigger] oferta[i]) && numero_en(oferta[i], 3) != 99
                    && celda(oferta[i], 1) == referencia_de(#[trigger] ramos[j]) && ({
                    let s = secciones_de_oferta(lista, ramos, oferta)[k];
                    if celda(oferta[i], 5).len() > 0 {
                        es_catedra(oferta[i]) && es_seccion_de_catedra(s, oferta[i], ramos[j].0)
                    } else {
                        &&& s.codigo == celda(oferta[i], 0)
                        &&& s.nombre == celda(oferta[i], 1)
                        &&& s.seccion == texto_entero(numero_en(oferta[i], 3) as int)
                        &&& s.horario.len() == 0
                        &&& s.profesor == celda(oferta[i], 7)
                        &&& s.codigo_box == ramos[j].0
                    }
                }),
{
    ley_oferta_origen(lista, ramos, oferta);
    let r = secciones_de_oferta(lista, ramos, oferta);
    {
        let (i, j) = choose|i: int, j: int|
            0 <= i < oferta.len() && 0 <= j < ramos.len() && (#[trigger] candidata_de_fila(oferta[i]))
                is Some && cruza_con_ramo(candidata_de_fila(oferta[i])->0, #[trigger] ramos[j]) && r[k]
                == seccion_de(candidata_de_fila(oferta[i])->0, ramos[j].0);
        assert(oferta[i].len() > 0);
        assert(fila_con_vacantes(oferta[i]));
        assert(ramos[j] == ramos[j]);
    }
}


/// Ley: cada sección `k` que agrega `append_electivos` sale de una fila
/// de cátedra de la oferta de más de 7 celdas, de un electivo tomable de
/// informática (`CIT33`) o de telecomunicaciones (`CIT34`), con vacantes
/// libres y número de sección distinto de 99, leída de sus celdas (la caja
/// es la de su pasada).
pub proof fn ley_append_electivos_de_la_oferta(
    lista: Seq<SeccionVista>,
    oferta: Filas,
    electivos_malla: Filas,
    aprobados: Filas,
    cant_inf_malla: int,
    cant_tel_malla: int,
    count_inf_aprobados: int,
    count_tel_aprobados: int,
    k: int,
)
    requires
        0 <= count_inf_aprobados,
        0 <= count_tel_aprobados,
        lista.len() <= k < electivos_agregados(
            lista,
            oferta,
            electivos_malla,
            aprobados,
            cant_inf_malla,
            cant_tel_malla,
            count_inf_aprobados,
            count_tel_aprobados,
        ).len(),
    ensures
        exists|i: int|
            0 <= i < oferta.len() && #[trigger] oferta[i].len() > 7 && es_catedra(oferta[i])
                && electivos_tomables(electivos_malla, aprobados).contains(celda(oferta[i], 1)) && (
            es_prefijo("CIT33"@, celda(oferta[i], 1)) || es_prefijo("CIT34"@, celda(oferta[i], 1)))
                && fila_con_vacantes(oferta[i]) && numero_en(oferta[i], 3) != 99 && es_seccion_de_catedra(
                electivos_agregados(
                    lista,
                    oferta,
                    electivos_malla,
                    aprobados,
                    cant_inf_malla,
                    cant_tel_malla,
                    count_inf_aprobados,
                    count_tel_aprobados,
                )[k],
                oferta[i],
                electivos_agregados(
                    lista,
                    oferta,
                    electivos_malla,
                    aprobados,
                    cant_inf_malla,
                    cant_tel_malla,
                    count_inf_aprobados,
                    count_tel_aprobados,
                )[k].codigo_box,
            ),
{
    let t = electivos_tomables(electivos_malla, aprobados);
    let inf = electivos_pasadas(lista, oferta, t, "CIT33"@, "CIT331"@, count_inf_aprobados, cant_inf_malla);
    let r = electivos_pasadas(inf, oferta, t, "CIT34"@, "CIT341"@, count_tel_aprobados, cant_tel_malla);
    ley_electivos_origen(inf, oferta, t, "CIT34"@, "CIT341"@, count_tel_aprobados, cant_tel_malla);
    ley_electivos_origen(lista, oferta, t, "CIT33"@, "CIT331"@, count_inf_aprobados, cant_inf_malla);
    if k < inf.len() {
        assert(r[k] == inf[k]);
        ley_electivos_de_la_oferta(lista, oferta, t, "CIT33"@, "CIT331"@, count_inf_aprobados, cant_inf_malla, k);
        let (i, z) = choose|i: int, z: int|
            0 <= i < oferta.len() && count_inf_aprobados <= z < cant_inf_malla && #[trigger] oferta[i].len() > 7
                && es_catedra(oferta[i]) && t.contains(celda(oferta[i], 1)) && es_prefijo(
                "CIT33"@,
                celda(oferta[i], 1),
            ) && fila_con_vacantes(oferta[i]) && numero_en(oferta[i], 3) != 99
                && es_seccion_de_catedra(inf[k], oferta[i], #[trigger] caja_de("CIT331"@, z));
        assert(es_seccion_de_catedra(r[k], oferta[i], caja_de("CIT331"@, z)));
    } else {
        ley_electivos_de_la_oferta(inf, oferta, t, "CIT34"@, "CIT341"@, count_tel_aprobados, cant_tel_malla, k);
        let (i, z) = choose|i: int, z: int|
            0 <= i < oferta.len() && count_tel_aprobados <= z < cant_tel_malla && #[trigger] oferta[i].len() > 7
                && es_catedra(oferta[i]) && t.contains(celda(oferta[i], 1)) && es_prefijo(
                "CIT34"@,
                celda(oferta[i], 1),
            ) && fila_con_vacantes(oferta[i]) && numero_en(oferta[i], 3) != 99
                && es_seccion_de_catedra(r[k], oferta[i], #[trigger] caja_de("CIT341"@, z));
        assert(es_seccion_de_catedra(r[k], oferta[i], caja_de("CIT341"@, z)));
    }
}

} // verus!
