//! Lectura de planillas Excel ya abiertas: la malla curricular, la oferta
//! académica y los porcentajes de aprobados, a partir de sus celdas.
use vstd::prelude::*;
use vstd::utf8::encode_utf8;
use crate::models::{
    MapaRamos, RamoDisponible, RamoVista, Seccion, SeccionVista, claves_distintas, con_entrada,
    copiar_textos, lema_posicion_de, ley_leer_lo_escrito, vista_secciones,
};
use crate::numeros::{escribir_entero64, lectura_i32, leer_i32, texto_entero};
use crate::texto::{
    Separador, contiene_texto, copiar, es_espacio, es_separador, es_subcadena, iguales,
    lema_no_vacios, lema_primer_trozo, lema_recorte, lema_reemplazo_sin, lema_trozos_no_vacio,
    lema_trozos_sin_separadores, minusculas, minusculas_de, no_vacios, partir, quitar_vacios,
    recortados, recortar, recortar_todos, recorte, reemplazar, reemplazo, sin_separadores, trozos,
};

verus! {

/// El contenido de una celda de planilla, con lo que se lee de él.
///
/// Un número decimal trae ya calculados su escritura (`to_string` del
/// `f64`), su conversión a `i32` (`as i32`, que satura) y si es distinto de
/// cero.
#[derive(Debug, Clone)]
pub enum Celda {
    Entero(i64),
    Decimal { texto: String, truncado: i32, no_nulo: bool },
    Texto(String),
    Logico(bool),
    FechaHora(String),
    FechaHoraIso(String),
    DuracionIso(String),
    Error,
    Vacia,
}

/// La celda `i` de la fila `f`, si existe.
pub open spec fn celda_en(f: Seq<Celda>, i: int) -> Option<Celda> {
    if 0 <= i < f.len() {
        Some(f[i])
    } else {
        None
    }
}

/// Vista de una planilla de celdas.
pub open spec fn vista_celdas(filas: Seq<Vec<Celda>>) -> Seq<Seq<Celda>> {
    filas.map_values(|f: Vec<Celda>| f@)
}

/// El texto de una celda: los números en decimal, los lógicos como
/// `true` o `false`, las fechas como vienen; `si_vacia` cuando la celda
/// falta, está vacía o tiene un error.
pub open spec fn texto_celda(c: Option<Celda>, si_vacia: Seq<char>) -> Seq<char> {
    match c {
        Some(Celda::Entero(i)) => texto_entero(i as int),
        Some(Celda::Decimal { texto, .. }) => texto@,
        Some(Celda::Texto(s)) => s@,
        Some(Celda::Logico(b)) => if b {
            "true"@
        } else {
            "false"@
        },
        Some(Celda::FechaHora(s)) => s@,
        Some(Celda::FechaHoraIso(s)) => s@,
        Some(Celda::DuracionIso(s)) => s@,
        _ => si_vacia,
    }
}

/// El texto de la celda `i` de `f` según `texto_celda`.
pub fn texto_de_celda(f: &Vec<Celda>, i: usize, si_vacia: &str) -> (r: String)
    ensures
        r@ == texto_celda(celda_en(f@, i as int), si_vacia@),
{
    if i >= f.len() {
        return copiar(si_vacia);
    }
    match &f[i] {
        Celda::Entero(v) => escribir_entero64(*v),
        Celda::Decimal { texto, .. } => texto.clone(),
        Celda::Texto(s) => s.clone(),
        Celda::Logico(b) => if *b {
            copiar("true")
        } else {
            copiar("false")
        },
        Celda::FechaHora(s) => s.clone(),
        Celda::FechaHoraIso(s) => s.clone(),
        Celda::DuracionIso(s) => s.clone(),
        Celda::Error => copiar(si_vacia),
        Celda::Vacia => copiar(si_vacia),
    }
}

/// El entero de una celda: un decimal convertido con `as i32`, un entero
/// truncado a 32 bits, un texto leído como `i32` (0 si no lo es), un lógico
/// como 1 o 0; 0 en los demás casos.
pub open spec fn entero_celda(c: Option<Celda>) -> i32 {
    match c {
        Some(Celda::Decimal { truncado, .. }) => truncado,
        Some(Celda::Entero(i)) => i as i32,
        Some(Celda::Texto(s)) => match lectura_i32(encode_utf8(s@)) {
            Some(v) => v,
            None => 0,
        },
        Some(Celda::Logico(b)) => if b {
            1
        } else {
            0
        },
        _ => 0,
    }
}

/// Lee el entero de la celda `i` de `f` según `entero_celda`.
pub fn entero_de_celda(f: &Vec<Celda>, i: usize) -> (r: i32)
    ensures
        r == entero_celda(celda_en(f@, i as int)),
{
    if i >= f.len() {
        return 0;
    }
    match &f[i] {
        Celda::Decimal { truncado, .. } => *truncado,
        Celda::Entero(v) => {
            #[verifier::truncate]
            (*v as i32)
        },
        Celda::Texto(s) => match leer_i32(s.as_str()) {
            Some(v) => v,
            None => 0,
        },
        Celda::Logico(b) => if *b {
            1
        } else {
            0
        },
        _ => 0,
    }
}

/// El valor lógico de una celda: un texto `true`, `True` o `TRUE`, un
/// número distinto de cero, o un lógico verdadero.
pub open spec fn logico_celda(c: Option<Celda>) -> bool {
    match c {
        Some(Celda::Texto(s)) => s@ == "true"@ || s@ == "True"@ || s@ == "TRUE"@,
        Some(Celda::Entero(i)) => i != 0,
        Some(Celda::Decimal { no_nulo, .. }) => no_nulo,
        Some(Celda::Logico(b)) => b,
        _ => false,
    }
}

/// Lee el valor lógico de la celda `i` de `f` según `logico_celda`.
pub fn logico_de_celda(f: &Vec<Celda>, i: usize) -> (r: bool)
    ensures
        r == logico_celda(celda_en(f@, i as int)),
{
    if i >= f.len() {
        return false;
    }
    match &f[i] {
        Celda::Texto(s) => iguales(s.as_str(), "true") || iguales(s.as_str(), "True") || iguales(
            s.as_str(),
            "TRUE",
        ),
        Celda::Entero(v) => *v != 0,
        Celda::Decimal { no_nulo, .. } => *no_nulo,
        Celda::Logico(b) => *b,
        _ => false,
    }
}

/// El ramo que describe una fila de la malla: código en la columna 0,
/// nombre en la 1, correlativo en la 2, holgura en la 3 y si es crítico en
/// la 4; ninguno si el código está vacío.
pub open spec fn ramo_de_malla(f: Seq<Celda>) -> Option<(Seq<char>, RamoVista)> {
    let codigo = texto_celda(celda_en(f, 0), Seq::empty());
    if codigo.len() == 0 {
        None
    } else {
        Some(
            (
                codigo,
                RamoVista {
                    nombre: texto_celda(celda_en(f, 1), Seq::empty()),
                    codigo: codigo,
                    holgura: entero_celda(celda_en(f, 3)),
                    numb_correlativo: entero_celda(celda_en(f, 2)),
                    critico: logico_celda(celda_en(f, 4)),
                    codigo_ref: Some(codigo),
                    dificultad: None,
                },
            ),
        )
    }
}

/// Los ramos de la malla: la primera fila es de encabezados; cada fila
/// siguiente con código asocia ese código a su ramo (una fila posterior
/// con el mismo código reemplaza a la anterior).
pub open spec fn malla_de_filas(filas: Seq<Seq<Celda>>) -> Seq<(Seq<char>, RamoVista)>
    decreases filas.len(),
{
    if filas.len() <= 1 {
        Seq::empty()
    } else {
        let m = malla_de_filas(filas.drop_last());
        match ramo_de_malla(filas.last()) {
            Some(e) => con_entrada(m, e.0, e.1),
            None => m,
        }
    }
}

/// El ramo de una fila de la malla, si tiene código.
pub fn ramo_de_fila(f: &Vec<Celda>) -> (r: Option<(String, RamoDisponible)>)
    ensures
        match r {
            Some(e) => ramo_de_malla(f@) == Some((e.0@, e.1@)),
            None => ramo_de_malla(f@) is None,
        },
{
    let codigo = texto_de_celda(f, 0, "");
    proof {
        reveal_strlit("");
        assert(""@ =~= Seq::<char>::empty());
    }
    if codigo.unicode_len() == 0 {
        return None;
    }
    let ramo = RamoDisponible {
        nombre: texto_de_celda(f, 1, ""),
        codigo: codigo.clone(),
        holgura: entero_de_celda(f, 3),
        numb_correlativo: entero_de_celda(f, 2),
        critico: logico_de_celda(f, 4),
        codigo_ref: Some(codigo.clone()),
        dificultad: None,
    };
    Some((codigo, ramo))
}

/// Los ramos de la malla curricular a partir de las filas de su primera
/// hoja.
pub fn malla_desde_filas(filas: &Vec<Vec<Celda>>) -> (r: MapaRamos)
    ensures
        r@ == malla_de_filas(vista_celdas(filas@)),
{
    let ghost v = vista_celdas(filas@);
    let mut m = MapaRamos::new();
    let mut i: usize = 1;
    if filas.len() <= 1 {
        return m;
    }
    assert(v.take(1).len() == 1);
    while i < filas.len()
        invariant
            1 <= i <= filas.len(),
            v == vista_celdas(filas@),
            m@ == malla_de_filas(v.take(i as int)),
        decreases filas.len() - i,
    {
        assert(v.take(i + 1).drop_last() =~= v.take(i as int));
        assert(v.take(i + 1).last() == filas[i as int]@);
        match ramo_de_fila(&filas[i]) {
            Some(e) => {
                m.insert(e.0, e.1);
            },
            None => {},
        }
        i = i + 1;
    }
    assert(v.take(filas.len() as int) =~= v);
    m
}

/// La caja que se deduce del código: lo que precede al primer guion.
pub open spec fn caja_derivada(codigo: Seq<char>) -> Seq<char> {
    trozos(codigo, Separador::Guion)[0]
}

fn derivar_caja(codigo: &str) -> (r: String)
    ensures
        r@ == caja_derivada(codigo@),
{
    let t = partir(codigo, &Separador::Guion);
    proof {
        lema_trozos_no_vacio(codigo@, Separador::Guion);
    }
    assert(t.deep_view()[0] == t[0]@);
    t[0].clone()
}

/// El horario escrito en un texto: sus trozos entre comas o puntos y
/// coma, recortados y sin los vacíos; `Sin horario` si el texto es vacío.
pub open spec fn horario_de_texto(h: Seq<char>) -> Seq<Seq<char>> {
    if h.len() == 0 {
        seq!["Sin horario"@]
    } else {
        no_vacios(recortados(trozos(h, Separador::ComaOPuntoYComa)))
    }
}

/// Parte un texto de horario según `horario_de_texto`.
pub fn horario_desde_texto(h: &str) -> (r: Vec<String>)
    ensures
        r.deep_view() == horario_de_texto(h@),
{
    if h.unicode_len() == 0 {
        let mut r: Vec<String> = Vec::new();
        r.push(copiar("Sin horario"));
        assert(r.deep_view() =~= seq!["Sin horario"@]);
        return r;
    }
    let t = partir(h, &Separador::ComaOPuntoYComa);
    let t = recortar_todos(&t);
    quitar_vacios(t)
}

/// La caja de una fila de oferta leída por celdas: la sexta celda; si
/// falta o está vacía, la deducida del código; si tiene un error, el código.
pub open spec fn caja_celda(c: Option<Celda>, codigo: Seq<char>) -> Seq<char> {
    match c {
        None => caja_derivada(codigo),
        Some(Celda::Vacia) => caja_derivada(codigo),
        Some(Celda::Error) => codigo,
        _ => texto_celda(c, Seq::empty()),
    }
}

/// La sección de una fila de la oferta leída por celdas: código,
/// nombre, sección, horario, profesor y caja en las columnas 0 a 5, con
/// `Sin nombre`, `1` y `Sin asignar` cuando faltan; ninguna si la fila
/// está vacía o no tiene código.
pub open spec fn seccion_de_celdas(f: Seq<Celda>) -> Option<SeccionVista> {
    let codigo = texto_celda(celda_en(f, 0), Seq::empty());
    if f.len() == 0 || codigo.len() == 0 {
        None
    } else {
        Some(
            SeccionVista {
                codigo: codigo,
                nombre: texto_celda(celda_en(f, 1), "Sin nombre"@),
                seccion: texto_celda(celda_en(f, 2), "1"@),
                horario: horario_de_texto(texto_celda(celda_en(f, 3), Seq::empty())),
                profesor: texto_celda(celda_en(f, 4), "Sin asignar"@),
                codigo_box: caja_celda(celda_en(f, 5), codigo),
            },
        )
    }
}

/// Las secciones de las filas de la oferta, salvo la primera (encabezados).
pub open spec fn secciones_de_celdas(filas: Seq<Seq<Celda>>) -> Seq<SeccionVista>
    decreases filas.len(),
{
    if filas.len() <= 1 {
        Seq::empty()
    } else {
        let l = secciones_de_celdas(filas.drop_last());
        match seccion_de_celdas(filas.last()) {
            Some(s) => l.push(s),
            None => l,
        }
    }
}

/// Por qué no se pudo leer la oferta académica.
#[derive(Debug, Clone, Copy, PartialEq, Eq)]
pub enum ErrorOferta {
    /// La hoja no tiene celdas.
    Vacia,
    /// La hoja no tiene al menos una fila de encabezados y una de datos.
    PocasFilas,
}

fn seccion_de_fila_celdas(f: &Vec<Celda>) -> (r: Option<Seccion>)
    ensures
        match r {
            Some(s) => seccion_de_celdas(f@) == Some(s@),
            None => seccion_de_celdas(f@) is None,
        },
{
    if f.len() == 0 {
        return None;
    }
    proof {
        reveal_strlit("");
        assert(""@ =~= Seq::<char>::empty());
    }
    let codigo = texto_de_celda(f, 0, "");
    if codigo.unicode_len() == 0 {
        return None;
    }
    let horario_texto = texto_de_celda(f, 3, "");
    let codigo_box = if f.len() <= 5 {
        derivar_caja(codigo.as_str())
    } else {
        match &f[5] {
            Celda::Vacia => derivar_caja(codigo.as_str()),
            Celda::Error => codigo.clone(),
            _ => texto_de_celda(f, 5, ""),
        }
    };
    Some(
        Seccion {
            codigo: codigo,
            nombre: texto_de_celda(f, 1, "Sin nombre"),
            seccion: texto_de_celda(f, 2, "1"),
            horario: horario_desde_texto(horario_texto.as_str()),
            profesor: texto_de_celda(f, 4, "Sin asignar"),
            codigo_box: codigo_box,
        },
    )
}

/// Las secciones de la oferta académica a partir de las filas de la hoja
/// elegida: error si la hoja está vacía o tiene menos de dos filas.
pub fn secciones_desde_celdas(filas: &Vec<Vec<Celda>>) -> (r: Result<Vec<Seccion>, ErrorOferta>)
    ensures
        filas.len() == 0 ==> r == Err::<Vec<Seccion>, ErrorOferta>(ErrorOferta::Vacia),
        filas.len() == 1 ==> r == Err::<Vec<Seccion>, ErrorOferta>(ErrorOferta::PocasFilas),
        filas.len() >= 2 ==> (r matches Ok(l) && vista_secciones(l@) == secciones_de_celdas(
            vista_celdas(filas@),
        )),
{
    if filas.len() == 0 {
        return Err(ErrorOferta::Vacia);
    }
    if filas.len() < 2 {
        return Err(ErrorOferta::PocasFilas);
    }
    let ghost v = vista_celdas(filas@);
    let mut res: Vec<Seccion> = Vec::new();
    let mut i: usize = 1;
    assert(vista_secciones(res@) =~= secciones_de_celdas(v.take(1)));
    while i < filas.len()
        invariant
            1 <= i <= filas.len(),
            v == vista_celdas(filas@),
            vista_secciones(res@) == secciones_de_celdas(v.take(i as int)),
        decreases filas.len() - i,
    {
        assert(v.take(i + 1).drop_last() =~= v.take(i as int));
        assert(v.take(i + 1).last() == filas[i as int]@);
        let ghost antes = vista_secciones(res@);
        match seccion_de_fila_celdas(&filas[i]) {
            Some(s) => {
                let ghost sv = s@;
                res.push(s);
                assert(vista_secciones(res@) =~= antes.push(sv));
            },
            None => {},
        }
        i = i + 1;
    }
    assert(v.take(filas.len() as int) =~= v);
    Ok(res)
}

/// La celda `i` de una fila de textos, o `si_falta` si la fila es más corta.
pub open spec fn celda_o(f: Seq<Seq<char>>, i: int, si_falta: Seq<char>) -> Seq<char> {
    if 0 <= i < f.len() {
        f[i]
    } else {
        si_falta
    }
}

fn celda_o_exec(f: &Vec<String>, i: usize, si_falta: &str) -> (r: String)
    ensures
        r@ == celda_o(f.deep_view(), i as int, si_falta@),
{
    if i < f.len() {
        f[i].clone()
    } else {
        copiar(si_falta)
    }
}

/// Todas las celdas de la fila quedan vacías al recortarlas.
pub open spec fn fila_en_blanco(f: Seq<Seq<char>>) -> bool {
    forall|i: int| 0 <= i < f.len() ==> (#[trigger] recorte(f[i])).len() == 0
}

/// La sección de una fila de la oferta leída como textos: como
/// `seccion_de_celdas`, pero una celda presente se toma tal cual aunque
/// esté vacía, y se descartan las filas en blanco y las de código en blanco.
pub open spec fn seccion_de_textos(f: Seq<Seq<char>>) -> Option<SeccionVista> {
    let codigo = celda_o(f, 0, Seq::empty());
    if fila_en_blanco(f) || recorte(codigo).len() == 0 {
        None
    } else {
        Some(
            SeccionVista {
                codigo: codigo,
                nombre: celda_o(f, 1, "Sin nombre"@),
                seccion: celda_o(f, 2, "1"@),
                horario: horario_de_texto(celda_o(f, 3, Seq::empty())),
                profesor: celda_o(f, 4, "Sin asignar"@),
                codigo_box: if 5 < f.len() {
                    f[5]
                } else {
                    caja_derivada(codigo)
                },
            },
        )
    }
}

/// Las secciones de las filas de textos, salvo la primera (encabezados).
pub open spec fn secciones_de_textos(filas: Seq<Seq<Seq<char>>>) -> Seq<SeccionVista>
    decreases filas.len(),
{
    if filas.len() <= 1 {
        Seq::empty()
    } else {
        let l = secciones_de_textos(filas.drop_last());
        match seccion_de_textos(filas.last()) {
            Some(s) => l.push(s),
            None => l,
        }
    }
}

fn en_blanco(f: &Vec<String>) -> (r: bool)
    ensures
        r == fila_en_blanco(f.deep_view()),
{
    let mut i: usize = 0;
    while i < f.len()
        invariant
            i <= f.len(),
            forall|j: int| 0 <= j < i ==> (#[trigger] recorte(f.deep_view()[j])).len() == 0,
        decreases f.len() - i,
    {
        assert(f.deep_view()[i as int] == f[i as int]@);
        let t = recortar(f[i].as_str());
        if t.unicode_len() > 0 {
            return false;
        }
        i = i + 1;
    }
    true
}

fn seccion_de_fila_textos(f: &Vec<String>) -> (r: Option<Seccion>)
    ensures
        match r {
            Some(s) => seccion_de_textos(f.deep_view()) == Some(s@),
            None => seccion_de_textos(f.deep_view()) is None,
        },
{
    if en_blanco(f) {
        return None;
    }
    proof {
        reveal_strlit("");
        assert(""@ =~= Seq::<char>::empty());
    }
    let codigo = celda_o_exec(f, 0, "");
    let recortado = recortar(codigo.as_str());
    if recortado.unicode_len() == 0 {
        return None;
    }
    let horario_texto = celda_o_exec(f, 3, "");
    let codigo_box = if f.len() > 5 {
        assert(f.deep_view()[5] == f[5]@);
        f[5].clone()
    } else {
        derivar_caja(codigo.as_str())
    };
    Some(
        Seccion {
            codigo: codigo,
            nombre: celda_o_exec(f, 1, "Sin nombre"),
            seccion: celda_o_exec(f, 2, "1"),
            horario: horario_desde_texto(horario_texto.as_str()),
            profesor: celda_o_exec(f, 4, "Sin asignar"),
            codigo_box: codigo_box,
        },
    )
}

/// Las secciones de la oferta académica a partir de las filas de textos
/// leídas directamente del archivo: error si hay menos de dos filas.
pub fn secciones_desde_textos(filas: &Vec<Vec<String>>) -> (r: Result<Vec<Seccion>, ErrorOferta>)
    ensures
        filas.len() < 2 ==> r == Err::<Vec<Seccion>, ErrorOferta>(ErrorOferta::PocasFilas),
        filas.len() >= 2 ==> (r matches Ok(l) && vista_secciones(l@) == secciones_de_textos(
            filas.deep_view(),
        )),
{
    if filas.len() < 2 {
        return Err(ErrorOferta::PocasFilas);
    }
    let ghost v = filas.deep_view();
    let mut res: Vec<Seccion> = Vec::new();
    let mut i: usize = 1;
    assert(vista_secciones(res@) =~= secciones_de_textos(v.take(1)));
    while i < filas.len()
        invariant
            1 <= i <= filas.len(),
            v == filas.deep_view(),
            vista_secciones(res@) == secciones_de_textos(v.take(i as int)),
        decreases filas.len() - i,
    {
        assert(v.take(i + 1).drop_last() =~= v.take(i as int));
        assert(v.take(i + 1).last() == filas[i as int].deep_view());
        let ghost antes = vista_secciones(res@);
        match seccion_de_fila_textos(&filas[i]) {
            Some(s) => {
                let ghost sv = s@;
                res.push(s);
                assert(vista_secciones(res@) =~= antes.push(sv));
            },
            None => {},
        }
        i = i + 1;
    }
    assert(v.take(filas.len() as int) =~= v);
    Ok(res)
}

/// Hojas que se prueban primero al buscar la oferta académica.
pub open spec fn hojas_preferidas() -> Seq<Seq<char>> {
    seq!["Mi Malla"@, "MiMalla"@, "Mi malla"@]
}

/// `c` seguida de los nombres de `nombres` que aún no están, en orden.
pub open spec fn agregar_nuevas(c: Seq<Seq<char>>, nombres: Seq<Seq<char>>) -> Seq<Seq<char>>
    decreases nombres.len(),
{
    if nombres.len() == 0 {
        c
    } else {
        let antes = agregar_nuevas(c, nombres.drop_last());
        if antes.contains(nombres.last()) {
            antes
        } else {
            antes.push(nombres.last())
        }
    }
}

fn esta_entre(v: &Vec<String>, s: &str) -> (r: bool)
    ensures
        r == v.deep_view().contains(s@),
{
    let mut i: usize = 0;
    while i < v.len()
        invariant
            i <= v.len(),
            forall|j: int| 0 <= j < i ==> v.deep_view()[j] != s@,
        decreases v.len() - i,
    {
        assert(v.deep_view()[i as int] == v[i as int]@);
        if iguales(v[i].as_str(), s) {
            return true;
        }
        i = i + 1;
    }
    false
}

/// Las hojas en que se busca la oferta académica, en el orden en que se
/// prueban: las preferidas y luego las del libro que no estén ya.
pub fn candidatas_hojas(nombres: &Vec<String>) -> (r: Vec<String>)
    ensures
        r.deep_view() == agregar_nuevas(hojas_preferidas(), nombres.deep_view()),
{
    let mut c: Vec<String> = Vec::new();
    c.push(copiar("Mi Malla"));
    c.push(copiar("MiMalla"));
    c.push(copiar("Mi malla"));
    assert(c.deep_view() =~= hojas_preferidas());
    let ghost v = nombres.deep_view();
    let mut i: usize = 0;
    assert(v.take(0) =~= Seq::<Seq<char>>::empty());
    while i < nombres.len()
        invariant
            i <= nombres.len(),
            v == nombres.deep_view(),
            c.deep_view() == agregar_nuevas(hojas_preferidas(), v.take(i as int)),
        decreases nombres.len() - i,
    {
        assert(v.take(i + 1).drop_last() =~= v.take(i as int));
        assert(v.take(i + 1).last() == nombres[i as int]@);
        let ghost antes = c.deep_view();
        if !esta_entre(&c, nombres[i].as_str()) {
            c.push(nombres[i].clone());
            assert(c.deep_view() =~= antes.push(nombres[i as int]@));
        }
        i = i + 1;
    }
    assert(v.take(nombres.len() as int) =~= v);
    c
}

/// Hojas que se prueban al leer una planilla de la ruta crítica: la
/// pedida, `Mi Malla` y `MiMalla`, en ese orden (después, cualquier hoja
/// con al menos dos filas).
pub fn hojas_de_lectura(nombre: &str) -> (r: Vec<String>)
    ensures
        r.deep_view() == seq![nombre@, "Mi Malla"@, "MiMalla"@],
{
    let mut c: Vec<String> = Vec::new();
    c.push(copiar(nombre));
    c.push(copiar("Mi Malla"));
    c.push(copiar("MiMalla"));
    assert(c.deep_view() =~= seq![nombre@, "Mi Malla"@, "MiMalla"@]);
    c
}

/// Las filas de una hoja como textos, cada celda según `texto_celda` con
/// el texto vacío para vacías y errores.
pub open spec fn textos_de_filas(filas: Seq<Seq<Celda>>) -> Seq<Seq<Seq<char>>> {
    filas.map_values(
        |f: Seq<Celda>| f.map_values(|c: Celda| texto_celda(Some(c), Seq::empty())),
    )
}

/// Convierte las filas de una hoja a textos según `textos_de_filas`.
pub fn filas_como_textos(filas: &Vec<Vec<Celda>>) -> (r: Vec<Vec<String>>)
    ensures
        r.deep_view() == textos_de_filas(vista_celdas(filas@)),
{
    proof {
        reveal_strlit("");
        assert(""@ =~= Seq::<char>::empty());
    }
    let mut res: Vec<Vec<String>> = Vec::new();
    let mut i: usize = 0;
    while i < filas.len()
        invariant
            i <= filas.len(),
            res.len() == i,
            forall|j: int|
                0 <= j < i ==> #[trigger] res[j].deep_view() == filas[j]@.map_values(
                    |c: Celda| texto_celda(Some(c), Seq::empty()),
                ),
        decreases filas.len() - i,
    {
        let f = &filas[i];
        let mut fila: Vec<String> = Vec::new();
        let mut k: usize = 0;
        while k < f.len()
            invariant
                k <= f.len(),
                fila.len() == k,
                forall|j: int|
                    0 <= j < k ==> #[trigger] fila[j]@ == texto_celda(Some(f[j]), Seq::empty()),
            decreases f.len() - k,
        {
            proof {
                reveal_strlit("");
                assert(""@ =~= Seq::<char>::empty());
            }
            fila.push(texto_de_celda(f, k, ""));
            k = k + 1;
        }
        assert(fila.deep_view() =~= f@.map_values(|c: Celda| texto_celda(Some(c), Seq::empty())));
        res.push(fila);
        i = i + 1;
    }
    assert(res.deep_view() =~= textos_de_filas(vista_celdas(filas@)));
    res
}

/// El texto de una celda en la planilla de porcentajes: los textos
/// recortados, los lógicos como `1` o `0`, el texto vacío si la celda
/// falta, está vacía o tiene un error.
pub open spec fn texto_porcentaje(c: Option<Celda>) -> Seq<char> {
    match c {
        Some(Celda::Texto(s)) => recorte(s@),
        Some(Celda::Logico(b)) => if b {
            "1"@
        } else {
            "0"@
        },
        _ => texto_celda(c, Seq::empty()),
    }
}

fn texto_de_porcentaje(f: &Vec<Celda>, i: usize) -> (r: String)
    ensures
        r@ == texto_porcentaje(celda_en(f@, i as int)),
{
    proof {
        reveal_strlit("");
        assert(""@ =~= Seq::<char>::empty());
    }
    if i >= f.len() {
        return String::new();
    }
    match &f[i] {
        Celda::Texto(s) => recortar(s.as_str()),
        Celda::Logico(b) => if *b {
            copiar("1")
        } else {
            copiar("0")
        },
        _ => texto_de_celda(f, i, ""),
    }
}

/// Las columnas que se buscan en la planilla de porcentajes.
pub enum Columna {
    Codigo,
    Aprobados,
    Total,
    Porcentaje,
}

/// El encabezado (ya normalizado) `h` nombra la columna `k`.
pub open spec fn es_columna(k: Columna, h: Seq<char>) -> bool {
    match k {
        Columna::Codigo => es_subcadena("codigo"@, h) || h == "ramo"@ || h == "asignatura"@,
        Columna::Aprobados => es_subcadena("aprob"@, h),
        Columna::Total => es_subcadena("total"@, h),
        Columna::Porcentaje => es_subcadena("porcentaje"@, h) || es_subcadena("%"@, h),
    }
}

fn nombra_columna(k: Columna, h: &str) -> (r: bool)
    ensures
        r == es_columna(k, h@),
{
    match k {
        Columna::Codigo => contiene_texto(h, "codigo") || iguales(h, "ramo") || iguales(
            h,
            "asignatura",
        ),
        Columna::Aprobados => contiene_texto(h, "aprob"),
        Columna::Total => contiene_texto(h, "total"),
        Columna::Porcentaje => contiene_texto(h, "porcentaje") || contiene_texto(h, "%"),
    }
}

/// El último encabezado que nombra la columna `k`.
pub open spec fn ultima_columna(hs: Seq<Seq<char>>, k: Columna) -> Option<int>
    decreases hs.len(),
{
    if hs.len() == 0 {
        None
    } else if es_columna(k, hs.last()) {
        Some(hs.len() - 1)
    } else {
        ultima_columna(hs.drop_last(), k)
    }
}

/// Dónde están las columnas de la planilla de porcentajes.
#[derive(Debug, Clone, Copy)]
pub struct IndicesPorcentaje {
    pub codigo: usize,
    pub aprobados: Option<usize>,
    pub total: Option<usize>,
    pub porcentaje: Option<usize>,
}

/// Un índice opcional como `usize`.
pub open spec fn indice_opcional(o: Option<int>) -> Option<usize> {
    match o {
        Some(i) => Some(i as usize),
        None => None,
    }
}

/// Los índices leídos de los encabezados `hs`: la última columna que
/// nombra cada cosa (el código en la columna 0 si ninguna lo nombra).
pub open spec fn indices_de(hs: Seq<Seq<char>>) -> IndicesPorcentaje {
    IndicesPorcentaje {
        codigo: match ultima_columna(hs, Columna::Codigo) {
            Some(i) => i as usize,
            None => 0,
        },
        aprobados: indice_opcional(ultima_columna(hs, Columna::Aprobados)),
        total: indice_opcional(ultima_columna(hs, Columna::Total)),
        porcentaje: indice_opcional(ultima_columna(hs, Columna::Porcentaje)),
    }
}

/// Busca las columnas en los encabezados ya normalizados `hs`.
pub fn indices_encabezado(hs: &Vec<String>) -> (r: IndicesPorcentaje)
    ensures
        r == indices_de(hs.deep_view()),
{
    let ghost v = hs.deep_view();
    let mut r = IndicesPorcentaje { codigo: 0, aprobados: None, total: None, porcentaje: None };
    let mut i: usize = 0;
    assert(v.take(0) =~= Seq::<Seq<char>>::empty());
    while i < hs.len()
        invariant
            i <= hs.len(),
            v == hs.deep_view(),
            r == indices_de(v.take(i as int)),
        decreases hs.len() - i,
    {
        assert(v.take(i + 1).drop_last() =~= v.take(i as int));
        assert(v.take(i + 1).last() == hs[i as int]@);
        let h = hs[i].as_str();
        if nombra_columna(Columna::Codigo, h) {
            r.codigo = i;
        }
        if nombra_columna(Columna::Aprobados, h) {
            r.aprobados = Some(i);
        }
        if nombra_columna(Columna::Total, h) {
            r.total = Some(i);
        }
        if nombra_columna(Columna::Porcentaje, h) {
            r.porcentaje = Some(i);
        }
        i = i + 1;
    }
    assert(v.take(hs.len() as int) =~= v);
    r
}

/// Un encabezado de la hoja leída por celdas: su texto en minúsculas y
/// recortado.
pub open spec fn encabezado_de_celda(c: Option<Celda>) -> Seq<char> {
    recorte(minusculas_de(texto_porcentaje(c)))
}

/// Un encabezado de la hoja leída como textos: recortado y en minúsculas.
pub open spec fn encabezado_de_texto(s: Seq<char>) -> Seq<char> {
    minusculas_de(recorte(s))
}

/// Normaliza los encabezados de una fila de celdas.
pub fn encabezados_de_celdas(f: &Vec<Celda>) -> (r: Vec<String>)
    ensures
        r.len() == f.len(),
        forall|i: int| 0 <= i < f.len() ==> #[trigger] r[i]@ == encabezado_de_celda(Some(f[i])),
{
    let mut r: Vec<String> = Vec::new();
    let mut i: usize = 0;
    while i < f.len()
        invariant
            i <= f.len(),
            r.len() == i,
            forall|j: int| 0 <= j < i ==> #[trigger] r[j]@ == encabezado_de_celda(Some(f[j])),
        decreases f.len() - i,
    {
        let t = texto_de_porcentaje(f, i);
        let m = minusculas(t.as_str());
        r.push(recortar(m.as_str()));
        i = i + 1;
    }
    r
}

/// Normaliza los encabezados de una fila de textos.
pub fn encabezados_de_textos(f: &Vec<String>) -> (r: Vec<String>)
    ensures
        r.len() == f.len(),
        forall|i: int| 0 <= i < f.len() ==> #[trigger] r[i]@ == encabezado_de_texto(f[i]@),
{
    let mut r: Vec<String> = Vec::new();
    let mut i: usize = 0;
    while i < f.len()
        invariant
            i <= f.len(),
            r.len() == i,
            forall|j: int| 0 <= j < i ==> #[trigger] r[j]@ == encabezado_de_texto(f[j]@),
        decreases f.len() - i,
    {
        let t = recortar(f[i].as_str());
        r.push(minusculas(t.as_str()));
        i = i + 1;
    }
    r
}

/// Una forma de leer el porcentaje de aprobados de un ramo.
#[derive(Debug, Clone)]
pub enum Intento {
    /// Aprobados y total (sin comas): el par vale si ambos son números y el
    /// total es positivo.
    Razon { aprobados: String, total: String },
    /// Un porcentaje (sin `%`, con `.` decimal): vale si es un número, con
    /// total 100.
    Porcentaje(String),
}

/// Vista de un `Intento`.
pub enum IntentoVista {
    Razon(Seq<char>, Seq<char>),
    Porcentaje(Seq<char>),
}

/// Vista de una lista de intentos.
pub open spec fn vista_intentos(v: Seq<Intento>) -> Seq<IntentoVista> {
    v.map_values(
        |i: Intento|
            match i {
                Intento::Razon { aprobados, total } => IntentoVista::Razon(aprobados@, total@),
                Intento::Porcentaje(p) => IntentoVista::Porcentaje(p@),
            },
    )
}

/// Un número sin las comas de miles.
pub open spec fn sin_comas(s: Seq<char>) -> Seq<char> {
    reemplazo(s, ',', Seq::empty())
}

/// Un porcentaje sin `%` y con la coma decimal cambiada por punto.
pub open spec fn porcentaje_limpio(s: Seq<char>) -> Seq<char> {
    reemplazo(reemplazo(s, '%', Seq::empty()), ',', "."@)
}

/// Los intentos en el orden en que se prueban: aprobados y total si hay
/// ambas columnas, la columna de porcentaje si la hay, y al final la
/// segunda celda como porcentaje.
pub open spec fn intentos_con(
    razon: Option<(Seq<char>, Seq<char>)>,
    porcentaje: Option<Seq<char>>,
    segunda: Seq<char>,
) -> Seq<IntentoVista> {
    (match razon {
        Some(r) => seq![IntentoVista::Razon(sin_comas(r.0), sin_comas(r.1))],
        None => Seq::empty(),
    }) + (match porcentaje {
        Some(p) => seq![IntentoVista::Porcentaje(porcentaje_limpio(p))],
        None => Seq::empty(),
    }) + seq![IntentoVista::Porcentaje(porcentaje_limpio(segunda))]
}

fn armar_intentos(razon: Option<(String, String)>, porcentaje: Option<String>, segunda: String) -> (r:
    Vec<Intento>)
    ensures
        vista_intentos(r@) == intentos_con(
            match razon {
                Some(x) => Some((x.0@, x.1@)),
                None => None,
            },
            match porcentaje {
                Some(p) => Some(p@),
                None => None,
            },
            segunda@,
        ),
{
    proof {
        reveal_strlit("");
        assert(""@ =~= Seq::<char>::empty());
    }
    let mut r: Vec<Intento> = Vec::new();
    match razon {
        Some(x) => {
            r.push(
                Intento::Razon {
                    aprobados: reemplazar(x.0.as_str(), ',', ""),
                    total: reemplazar(x.1.as_str(), ',', ""),
                },
            );
        },
        None => {},
    }
    match porcentaje {
        Some(p) => {
            let a = reemplazar(p.as_str(), '%', "");
            r.push(Intento::Porcentaje(reemplazar(a.as_str(), ',', ".")));
        },
        None => {},
    }
    let a = reemplazar(segunda.as_str(), '%', "");
    r.push(Intento::Porcentaje(reemplazar(a.as_str(), ',', ".")));
    assert(vista_intentos(r@) =~= intentos_con(
        match razon {
            Some(x) => Some((x.0@, x.1@)),
            None => None,
        },
        match porcentaje {
            Some(p) => Some(p@),
            None => None,
        },
        segunda@,
    ));
    r
}

/// Cómo leer el porcentaje de aprobados de un ramo: su código y los
/// intentos, en orden; vale el primero que resulte.
#[derive(Debug, Clone)]
pub struct PlanPorcentaje {
    pub codigo: String,
    pub intentos: Vec<Intento>,
}

/// Vista de un `PlanPorcentaje`.
pub struct PlanVista {
    pub codigo: Seq<char>,
    pub intentos: Seq<IntentoVista>,
}

/// Vista de una lista de planes.
pub open spec fn vista_planes(v: Seq<PlanPorcentaje>) -> Seq<PlanVista> {
    v.map_values(|p: PlanPorcentaje| PlanVista { codigo: p.codigo@, intentos: vista_intentos(p.intentos@) })
}

/// El plan de una fila de celdas, si su código no queda en blanco.
pub open spec fn plan_de_celdas(f: Seq<Celda>, idx: IndicesPorcentaje) -> Option<PlanVista> {
    let codigo = texto_porcentaje(celda_en(f, idx.codigo as int));
    if recorte(codigo).len() == 0 {
        None
    } else {
        Some(
            PlanVista {
                codigo: codigo,
                intentos: intentos_con(
                    match (idx.aprobados, idx.total) {
                        (Some(a), Some(n)) => Some(
                            (
                                texto_porcentaje(celda_en(f, a as int)),
                                texto_porcentaje(celda_en(f, n as int)),
                            ),
                        ),
                        _ => None,
                    },
                    match idx.porcentaje {
                        Some(p) => Some(texto_porcentaje(celda_en(f, p as int))),
                        None => None,
                    },
                    texto_porcentaje(celda_en(f, 1)),
                ),
            },
        )
    }
}

/// El plan de una fila de textos: su código recortado, si no es vacío.
pub open spec fn plan_de_textos(f: Seq<Seq<char>>, idx: IndicesPorcentaje) -> Option<PlanVista> {
    let codigo = recorte(celda_o(f, idx.codigo as int, Seq::empty()));
    if codigo.len() == 0 {
        None
    } else {
        Some(
            PlanVista {
                codigo: codigo,
                intentos: intentos_con(
                    match (idx.aprobados, idx.total) {
                        (Some(a), Some(n)) => Some(
                            (celda_o(f, a as int, Seq::empty()), celda_o(f, n as int, Seq::empty())),
                        ),
                        _ => None,
                    },
                    match idx.porcentaje {
                        Some(p) => Some(celda_o(f, p as int, Seq::empty())),
                        None => None,
                    },
                    celda_o(f, 1, Seq::empty()),
                ),
            },
        )
    }
}

fn plan_de_fila_celdas(f: &Vec<Celda>, idx: IndicesPorcentaje) -> (r: Option<PlanPorcentaje>)
    ensures
        match r {
            Some(p) => plan_de_celdas(f@, idx) == Some(
                PlanVista { codigo: p.codigo@, intentos: vista_intentos(p.intentos@) },
            ),
            None => plan_de_celdas(f@, idx) is None,
        },
{
    let codigo = texto_de_porcentaje(f, idx.codigo);
    let rc = recortar(codigo.as_str());
    if rc.unicode_len() == 0 {
        return None;
    }
    let razon = match (idx.aprobados, idx.total) {
        (Some(a), Some(n)) => Some((texto_de_porcentaje(f, a), texto_de_porcentaje(f, n))),
        _ => None,
    };
    let porcentaje = match idx.porcentaje {
        Some(p) => Some(texto_de_porcentaje(f, p)),
        None => None,
    };
    let intentos = armar_intentos(razon, porcentaje, texto_de_porcentaje(f, 1));
    Some(PlanPorcentaje { codigo, intentos })
}

fn plan_de_fila_textos(f: &Vec<String>, idx: IndicesPorcentaje) -> (r: Option<PlanPorcentaje>)
    ensures
        match r {
            Some(p) => plan_de_textos(f.deep_view(), idx) == Some(
                PlanVista { codigo: p.codigo@, intentos: vista_intentos(p.intentos@) },
            ),
            None => plan_de_textos(f.deep_view(), idx) is None,
        },
{
    proof {
        reveal_strlit("");
        assert(""@ =~= Seq::<char>::empty());
    }
    let c = celda_o_exec(f, idx.codigo, "");
    let codigo = recortar(c.as_str());
    if codigo.unicode_len() == 0 {
        return None;
    }
    let razon = match (idx.aprobados, idx.total) {
        (Some(a), Some(n)) => Some((celda_o_exec(f, a, ""), celda_o_exec(f, n, ""))),
        _ => None,
    };
    let porcentaje = match idx.porcentaje {
        Some(p) => Some(celda_o_exec(f, p, "")),
        None => None,
    };
    let intentos = armar_intentos(razon, porcentaje, celda_o_exec(f, 1, ""));
    Some(PlanPorcentaje { codigo, intentos })
}

/// Los planes de las filas de datos (desde la segunda) con los índices
/// `idx`.
pub open spec fn planes_filas_celdas(filas: Seq<Seq<Celda>>, idx: IndicesPorcentaje) -> Seq<
    PlanVista,
>
    decreases filas.len(),
{
    if filas.len() <= 1 {
        Seq::empty()
    } else {
        let l = planes_filas_celdas(filas.drop_last(), idx);
        match plan_de_celdas(filas.last(), idx) {
            Some(p) => l.push(p),
            None => l,
        }
    }
}

/// Como `planes_filas_celdas`, para filas de textos.
pub open spec fn planes_filas_textos(filas: Seq<Seq<Seq<char>>>, idx: IndicesPorcentaje) -> Seq<
    PlanVista,
>
    decreases filas.len(),
{
    if filas.len() <= 1 {
        Seq::empty()
    } else {
        let l = planes_filas_textos(filas.drop_last(), idx);
        match plan_de_textos(filas.last(), idx) {
            Some(p) => l.push(p),
            None => l,
        }
    }
}

/// Los planes de lectura de la planilla de porcentajes leída por celdas:
/// la primera fila da los encabezados; ninguno si no hay filas.
pub fn planes_desde_celdas(filas: &Vec<Vec<Celda>>) -> (r: Vec<PlanPorcentaje>)
    ensures
        filas.len() == 0 ==> r@.len() == 0,
        filas.len() > 0 ==> vista_planes(r@) == planes_filas_celdas(
            vista_celdas(filas@),
            indices_de(filas[0]@.map_values(|c: Celda| encabezado_de_celda(Some(c)))),
        ),
{
    let mut res: Vec<PlanPorcentaje> = Vec::new();
    if filas.len() == 0 {
        return res;
    }
    let hs = encabezados_de_celdas(&filas[0]);
    assert(hs.deep_view() =~= filas[0]@.map_values(|c: Celda| encabezado_de_celda(Some(c))));
    let idx = indices_encabezado(&hs);
    let ghost v = vista_celdas(filas@);
    let mut i: usize = 1;
    assert(vista_planes(res@) =~= planes_filas_celdas(v.take(1), idx));
    while i < filas.len()
        invariant
            1 <= i <= filas.len(),
            v == vista_celdas(filas@),
            vista_planes(res@) == planes_filas_celdas(v.take(i as int), idx),
        decreases filas.len() - i,
    {
        assert(v.take(i + 1).drop_last() =~= v.take(i as int));
        assert(v.take(i + 1).last() == filas[i as int]@);
        let ghost antes = vista_planes(res@);
        match plan_de_fila_celdas(&filas[i], idx) {
            Some(p) => {
                res.push(p);
                assert(vista_planes(res@) =~= antes.push(
                    PlanVista { codigo: p.codigo@, intentos: vista_intentos(p.intentos@) },
                ));
            },
            None => {},
        }
        i = i + 1;
    }
    assert(v.take(filas.len() as int) =~= v);
    res
}

/// Los planes de lectura de la planilla de porcentajes leída como
/// textos: la primera fila da los encabezados; ninguno si no hay filas.
pub fn planes_desde_textos(filas: &Vec<Vec<String>>) -> (r: Vec<PlanPorcentaje>)
    ensures
        filas.len() == 0 ==> r@.len() == 0,
        filas.len() > 0 ==> vista_planes(r@) == planes_filas_textos(
            filas.deep_view(),
            indices_de(filas[0].deep_view().map_values(|s: Seq<char>| encabezado_de_texto(s))),
        ),
{
    let mut res: Vec<PlanPorcentaje> = Vec::new();
    if filas.len() == 0 {
        return res;
    }
    let hs = encabezados_de_textos(&filas[0]);
    assert(hs.deep_view() =~= filas[0].deep_view().map_values(|s: Seq<char>| encabezado_de_texto(s)));
    let idx = indices_encabezado(&hs);
    let ghost v = filas.deep_view();
    let mut i: usize = 1;
    assert(vista_planes(res@) =~= planes_filas_textos(v.take(1), idx));
    while i < filas.len()
        invariant
            1 <= i <= filas.len(),
            v == filas.deep_view(),
            vista_planes(res@) == planes_filas_textos(v.take(i as int), idx),
        decreases filas.len() - i,
    {
        assert(v.take(i + 1).drop_last() =~= v.take(i as int));
        assert(v.take(i + 1).last() == filas[i as int].deep_view());
        let ghost antes = vista_planes(res@);
        match plan_de_fila_textos(&filas[i], idx) {
            Some(p) => {
                res.push(p);
                assert(vista_planes(res@) =~= antes.push(
                    PlanVista { codigo: p.codigo@, intentos: vista_intentos(p.intentos@) },
                ));
            },
            None => {},
        }
        i = i + 1;
    }
    assert(v.take(filas.len() as int) =~= v);
    res
}

/// Letra ASCII, mayúscula o minúscula.
pub open spec fn es_letra_ascii(c: char) -> bool {
    ('a' <= c && c <= 'z') || ('A' <= c && c <= 'Z')
}

/// Posición de la letra ASCII `c` en el alfabeto, desde 1 (sin distinguir
/// mayúsculas).
pub open spec fn valor_letra(c: char) -> int {
    if 'a' <= c && c <= 'z' {
        (c as int) - ('a' as int) + 1
    } else {
        (c as int) - ('A' as int) + 1
    }
}

/// El índice de columna, desde 1, que escriben las letras de `s` en base
/// 26 (`A` = 1, `Z` = 26, `AA` = 27); los demás caracteres se saltan.
pub open spec fn indice_columna(s: Seq<char>) -> int
    decreases s.len(),
{
    if s.len() == 0 {
        0
    } else if es_letra_ascii(s.last()) {
        indice_columna(s.drop_last()) * 26 + valor_letra(s.last())
    } else {
        indice_columna(s.drop_last())
    }
}

/// El índice de un prefijo no pasa del índice del texto entero.
pub proof fn lema_indice_creciente(s: Seq<char>, k: int)
    requires
        0 <= k <= s.len(),
    ensures
        0 <= indice_columna(s.take(k)) <= indice_columna(s),
    decreases s.len() - k,
{
    if k < s.len() {
        lema_indice_creciente(s, k + 1);
        assert(s.take(k + 1).drop_last() =~= s.take(k));
    } else {
        assert(s.take(k) =~= s);
    }
    lema_indice_no_negativo(s.take(k));
}

/// El índice nunca es negativo.
pub proof fn lema_indice_no_negativo(s: Seq<char>)
    ensures
        0 <= indice_columna(s),
    decreases s.len(),
{
    if s.len() > 0 {
        lema_indice_no_negativo(s.drop_last());
    }
}

/// El índice de columna si cabe en un `usize`.
pub(crate) fn indice_acotado(s: &str) -> (r: Option<usize>)
    ensures
        match r {
            Some(k) => indice_columna(s@) == k,
            None => indice_columna(s@) > usize::MAX,
        },
{
    let n = s.unicode_len();
    let mut acc: u128 = 0;
    let mut i: usize = 0;
    assert(s@.take(0) =~= Seq::<char>::empty());
    while i < n
        invariant
            i <= n,
            n == s@.len(),
            acc == indice_columna(s@.take(i as int)),
            acc <= usize::MAX,
        decreases n - i,
    {
        assert(s@.take(i + 1).drop_last() =~= s@.take(i as int));
        let c = s.get_char(i);
        assert(s@.take(i + 1).last() == c);
        if ('a' <= c && c <= 'z') || ('A' <= c && c <= 'Z') {
            let v: u32 = if c <= 'Z' {
                (c as u32) - ('A' as u32) + 1
            } else {
                (c as u32) - ('a' as u32) + 1
            };
            let nuevo = acc * 26 + v as u128;
            if nuevo > usize::MAX as u128 {
                proof {
                    lema_indice_creciente(s@, i + 1);
                }
                return None;
            }
            acc = nuevo;
        }
        i = i + 1;
    }
    assert(s@.take(n as int) =~= s@);
    Some(acc as usize)
}

/// Convierte las letras de una referencia de columna (`A`, `AB`...) en
/// su índice, desde 1.
pub fn column_letters_to_index(s: &str) -> (r: usize)
    requires
        indice_columna(s@) <= usize::MAX,
    ensures
        r == indice_columna(s@),
{
    match indice_acotado(s) {
        Some(k) => k,
        // El requisito descarta que el índice no quepa.
        None => 0,
    }
}

/// Ley: la caja deducida de un código es lo que precede a su primer
/// guion: un prefijo sin guiones, seguido de un guion si no es el código
/// entero, y el código entero si no tiene guiones.
pub proof fn ley_caja_derivada(codigo: Seq<char>)
    ensures
        ({
            let c = caja_derivada(codigo);
            &&& c.len() <= codigo.len()
            &&& codigo.take(c.len() as int) == c
            &&& !c.contains('-')
            &&& c.len() < codigo.len() ==> codigo[c.len() as int] == '-'
            &&& !codigo.contains('-') ==> c == codigo
        }),
{
    lema_primer_trozo(codigo, Separador::Guion);
    let c = caja_derivada(codigo);
    if c.contains('-') {
        let i = choose|i: int| 0 <= i < c.len() && c[i] == '-';
        assert(c[i] == '-');
    }
    if !codigo.contains('-') && c.len() < codigo.len() {
        assert(codigo[c.len() as int] == '-');
    }
    if c.len() == codigo.len() {
        assert(codigo.take(c.len() as int) =~= codigo);
    }
}

/// Ley: un porcentaje limpio no tiene `%` ni comas, y un número sin comas
/// no tiene comas.
pub proof fn ley_porcentaje_limpio(s: Seq<char>)
    ensures
        !porcentaje_limpio(s).contains('%'),
        !porcentaje_limpio(s).contains(','),
        !sin_comas(s).contains(','),
{
    reveal_strlit(".");
    assert(!Seq::<char>::empty().contains('%'));
    assert(!Seq::<char>::empty().contains(','));
    assert(!"."@.contains(',')) by {
        assert("."@ =~= seq!['.']);
    }
    assert(!"."@.contains('%')) by {
        assert("."@ =~= seq!['.']);
    }
    lema_reemplazo_sin(s, '%', Seq::empty(), '%');
    let a = reemplazo(s, '%', Seq::empty());
    lema_reemplazo_sin(a, ',', "."@, '%');
    lema_reemplazo_sin(a, ',', "."@, ',');
    lema_reemplazo_sin(s, ',', Seq::empty(), ',');
}


/// Una entrada de horario bien formada: no vacía, sin espacios en los
/// extremos y sin comas ni puntos y coma.
pub open spec fn entrada_limpia(x: Seq<char>) -> bool {
    &&& x.len() > 0
    &&& !es_espacio(x[0])
    &&& !es_espacio(x.last())
    &&& !x.contains(',')
    &&& !x.contains(';')
}

/// Ley: cada entrada de un horario leído de un texto es no vacía, está
/// recortada y no tiene comas ni puntos y coma.
pub proof fn ley_horario_limpio(h: Seq<char>)
    ensures
        forall|i: int|
            0 <= i < horario_de_texto(h).len() ==> entrada_limpia(#[trigger] horario_de_texto(h)[i]),
{
    let k = Separador::ComaOPuntoYComa;
    if h.len() == 0 {
        reveal_strlit("Sin horario");
        let x = "Sin horario"@;
        assert(x =~= seq!['S', 'i', 'n', ' ', 'h', 'o', 'r', 'a', 'r', 'i', 'o']);
        assert(horario_de_texto(h)[0] == x);
        assert(!x.contains(','));
        assert(!x.contains(';'));
    } else {
        let t = trozos(h, k);
        let r = recortados(t);
        lema_trozos_sin_separadores(h, k);
        lema_no_vacios(r);
        assert forall|i: int| 0 <= i < horario_de_texto(h).len() implies entrada_limpia(
            #[trigger] horario_de_texto(h)[i],
        ) by {
            let x = horario_de_texto(h)[i];
            assert(no_vacios(r)[i] == x);
            let j = choose|j: int| 0 <= j < r.len() && no_vacios(r)[i] == #[trigger] r[j];
            assert(sin_separadores(t[j], k));
            lema_recorte(t[j], k);
            assert(x == recorte(t[j]));
            assert(sin_separadores(x, k));
            if x.contains(',') {
                let m = choose|m: int| 0 <= m < x.len() && x[m] == ',';
                assert(!es_separador(k, x[m]));
            }
            if x.contains(';') {
                let m = choose|m: int| 0 <= m < x.len() && x[m] == ';';
                assert(!es_separador(k, x[m]));
            }
        }
    }
}


/// El ramo está guardado bajo su propio código, no vacío, que es también
/// su código de referencia.
pub open spec fn entrada_de_malla(e: (Seq<char>, RamoVista)) -> bool {
    &&& e.0.len() > 0
    &&& e.1.codigo == e.0
    &&& e.1.codigo_ref == Some(e.0)
}

/// Ley: en la malla leída de una planilla, cada ramo está guardado bajo su
/// propio código (no vacío, y su código de referencia), y no hay dos ramos
/// con el mismo código.
pub proof fn ley_malla_por_codigo(filas: Seq<Seq<Celda>>)
    ensures
        claves_distintas(malla_de_filas(filas)),
        forall|i: int|
            0 <= i < malla_de_filas(filas).len() ==> entrada_de_malla(#[trigger] malla_de_filas(filas)[i]),
    decreases filas.len(),
{
    if filas.len() > 1 {
        let m = malla_de_filas(filas.drop_last());
        ley_malla_por_codigo(filas.drop_last());
        match ramo_de_malla(filas.last()) {
            Some(e) => {
                ley_leer_lo_escrito(m, e.0, e.1);
                lema_posicion_de(m, e.0);
                let n = con_entrada(m, e.0, e.1);
                assert forall|i: int| 0 <= i < n.len() implies entrada_de_malla(#[trigger] n[i]) by {
                    if i < m.len() && n[i] != (e.0, e.1) {
                        assert(n[i] == m[i]);
                    }
                }
            },
            None => {},
        }
    }
}

} // verus!
