//! Estructuras de datos principales: secciones, ramos y nodos PERT, con
//! su vista matemática, y el mapa de ramos disponibles por código.
use vstd::prelude::*;

verus! {

/// Una sección concreta de un ramo en la oferta académica.
#[derive(Debug, Clone)]
pub struct Seccion {
    pub codigo: String,
    pub nombre: String,
    pub seccion: String,
    pub horario: Vec<String>,
    pub profesor: String,
    pub codigo_box: String,
}

/// Vista de una `Seccion`: cada texto como secuencia de caracteres.
pub struct SeccionVista {
    pub codigo: Seq<char>,
    pub nombre: Seq<char>,
    pub seccion: Seq<char>,
    pub horario: Seq<Seq<char>>,
    pub profesor: Seq<char>,
    pub codigo_box: Seq<char>,
}

impl View for Seccion {
    type V = SeccionVista;

    open spec fn view(&self) -> SeccionVista {
        SeccionVista {
            codigo: self.codigo@,
            nombre: self.nombre@,
            seccion: self.seccion@,
            horario: self.horario.deep_view(),
            profesor: self.profesor@,
            codigo_box: self.codigo_box@,
        }
    }
}

/// Vista de una lista de secciones.
pub open spec fn vista_secciones(l: Seq<Seccion>) -> Seq<SeccionVista> {
    l.map_values(|s: Seccion| s@)
}

/// Metadatos de un ramo de la malla curricular.
///
/// `dificultad` guarda el porcentaje de aprobados como el patrón de bits
/// IEEE-754 de un `f64` (`f64::to_bits`), sin interpretarlo.
#[derive(Debug, Clone)]
pub struct RamoDisponible {
    pub nombre: String,
    pub codigo: String,
    pub holgura: i32,
    pub numb_correlativo: i32,
    pub critico: bool,
    pub codigo_ref: Option<String>,
    pub dificultad: Option<u64>,
}

/// Vista de un `RamoDisponible`.
pub struct RamoVista {
    pub nombre: Seq<char>,
    pub codigo: Seq<char>,
    pub holgura: i32,
    pub numb_correlativo: i32,
    pub critico: bool,
    pub codigo_ref: Option<Seq<char>>,
    pub dificultad: Option<u64>,
}

/// Vista de un texto opcional.
pub open spec fn vista_opcional(o: Option<String>) -> Option<Seq<char>> {
    match o {
        Some(s) => Some(s@),
        None => None,
    }
}

impl View for RamoDisponible {
    type V = RamoVista;

    open spec fn view(&self) -> RamoVista {
        RamoVista {
            nombre: self.nombre@,
            codigo: self.codigo@,
            holgura: self.holgura,
            numb_correlativo: self.numb_correlativo,
            critico: self.critico,
            codigo_ref: vista_opcional(self.codigo_ref),
            dificultad: self.dificultad,
        }
    }
}

/// Nodo de una red PERT: inicios y términos tempranos y tardíos, y holgura.
#[derive(Debug, Clone)]
pub struct PertNode {
    pub codigo: String,
    pub nombre: String,
    pub es: Option<i32>,
    pub ef: Option<i32>,
    pub ls: Option<i32>,
    pub lf: Option<i32>,
    pub h: Option<i32>,
}

/// Copia una lista de textos.
pub fn copiar_textos(v: &Vec<String>) -> (r: Vec<String>)
    ensures
        r.deep_view() == v.deep_view(),
{
    let mut res: Vec<String> = Vec::new();
    let mut i: usize = 0;
    while i < v.len()
        invariant
            i <= v.len(),
            res.len() == i,
            forall|j: int| 0 <= j < i ==> #[trigger] res[j]@ == v[j]@,
        decreases v.len() - i,
    {
        res.push(v[i].clone());
        i = i + 1;
    }
    assert(res.deep_view() =~= v.deep_view());
    res
}

/// Copia un texto opcional.
pub fn copiar_opcional(o: &Option<String>) -> (r: Option<String>)
    ensures
        vista_opcional(r) == vista_opcional(*o),
{
    match o {
        Some(s) => Some(s.clone()),
        None => None,
    }
}

impl Seccion {
    /// Una copia de la sección.
    pub fn copia(&self) -> (r: Seccion)
        ensures
            r@ == self@,
    {
        Seccion {
            codigo: self.codigo.clone(),
            nombre: self.nombre.clone(),
            seccion: self.seccion.clone(),
            horario: copiar_textos(&self.horario),
            profesor: self.profesor.clone(),
            codigo_box: self.codigo_box.clone(),
        }
    }
}

impl RamoDisponible {
    /// Una copia del ramo.
    pub fn copia(&self) -> (r: RamoDisponible)
        ensures
            r@ == self@,
    {
        RamoDisponible {
            nombre: self.nombre.clone(),
            codigo: self.codigo.clone(),
            holgura: self.holgura,
            numb_correlativo: self.numb_correlativo,
            critico: self.critico,
            codigo_ref: copiar_opcional(&self.codigo_ref),
            dificultad: self.dificultad,
        }
    }
}

/// Claves distintas dos a dos.
pub open spec fn claves_distintas(s: Seq<(Seq<char>, RamoVista)>) -> bool {
    forall|i: int, j: int|
        0 <= i < s.len() && 0 <= j < s.len() && i != j ==> #[trigger] s[i].0 != #[trigger] s[j].0
}

/// Posición de la clave `k` en `s`, si está.
pub open spec fn posicion_de(s: Seq<(Seq<char>, RamoVista)>, k: Seq<char>) -> Option<int>
    decreases s.len(),
{
    if s.len() == 0 {
        None
    } else if s.last().0 == k {
        Some(s.len() - 1)
    } else {
        posicion_de(s.drop_last(), k)
    }
}

/// `s` con la clave `k` asociada a `r`: reemplaza la entrada de `k` si
/// existe y si no la agrega al final.
pub open spec fn con_entrada(s: Seq<(Seq<char>, RamoVista)>, k: Seq<char>, r: RamoVista) -> Seq<
    (Seq<char>, RamoVista),
> {
    match posicion_de(s, k) {
        Some(i) => s.update(i, (k, r)),
        None => s.push((k, r)),
    }
}

/// El ramo asociado a `k` en `s`.
pub open spec fn ramo_de(s: Seq<(Seq<char>, RamoVista)>, k: Seq<char>) -> Option<RamoVista> {
    match posicion_de(s, k) {
        Some(i) => Some(s[i].1),
        None => None,
    }
}

/// `posicion_de` encuentra la clave donde está y sólo ahí.
pub proof fn lema_posicion_de(s: Seq<(Seq<char>, RamoVista)>, k: Seq<char>)
    ensures
        match posicion_de(s, k) {
            Some(i) => 0 <= i < s.len() && s[i].0 == k,
            None => forall|j: int| 0 <= j < s.len() ==> s[j].0 != k,
        },
    decreases s.len(),
{
    if s.len() > 0 && s.last().0 != k {
        lema_posicion_de(s.drop_last(), k);
        match posicion_de(s.drop_last(), k) {
            Some(i) => {},
            None => {
                assert forall|j: int| 0 <= j < s.len() implies s[j].0 != k by {
                    if j < s.len() - 1 {
                        assert(s.drop_last()[j] == s[j]);
                    }
                }
            },
        }
    }
}

/// Con claves distintas, la posición de una clave presente es su índice.
pub proof fn lema_posicion_unica(s: Seq<(Seq<char>, RamoVista)>, i: int)
    requires
        claves_distintas(s),
        0 <= i < s.len(),
    ensures
        posicion_de(s, s[i].0) == Some(i),
{
    lema_posicion_de(s, s[i].0);
}

/// Vista de una lista de entradas (clave, ramo).
pub open spec fn vista_entradas(e: Seq<(String, RamoDisponible)>) -> Seq<(Seq<char>, RamoVista)> {
    e.map_values(|x: (String, RamoDisponible)| (x.0@, x.1@))
}

/// Ramos disponibles indexados por código: cada clave aparece una sola
/// vez; el orden es el de inserción.
pub struct MapaRamos {
    entradas: Vec<(String, RamoDisponible)>,
}

impl View for MapaRamos {
    type V = Seq<(Seq<char>, RamoVista)>;

    closed spec fn view(&self) -> Seq<(Seq<char>, RamoVista)> {
        vista_entradas(self.entradas@)
    }
}

impl MapaRamos {
    /// Las claves del mapa son distintas dos a dos.
    #[verifier::type_invariant]
    spec fn bien_formado(&self) -> bool {
        claves_distintas(self@)
    }

    /// Un mapa vacío.
    pub fn new() -> (r: MapaRamos)
        ensures
            r@ == Seq::<(Seq<char>, RamoVista)>::empty(),
    {
        let r = MapaRamos { entradas: Vec::new() };
        assert(r@ =~= Seq::<(Seq<char>, RamoVista)>::empty());
        r
    }

    /// Número de entradas.
    pub fn len(&self) -> (r: usize)
        ensures
            r == self@.len(),
    {
        self.entradas.len()
    }

    /// La clave de la entrada `i`.
    pub fn clave(&self, i: usize) -> (r: &String)
        requires
            i < self@.len(),
        ensures
            r@ == self@[i as int].0,
    {
        &self.entradas[i].0
    }

    /// El ramo de la entrada `i`.
    pub fn ramo(&self, i: usize) -> (r: &RamoDisponible)
        requires
            i < self@.len(),
        ensures
            r@ == self@[i as int].1,
    {
        &self.entradas[i].1
    }

    /// Posición de la clave `k`, si está.
    pub fn posicion(&self, k: &str) -> (r: Option<usize>)
        ensures
            r matches Some(i) ==> posicion_de(self@, k@) == Some(i as int) && i < self@.len()
                && self@[i as int].0 == k@,
            r is None ==> posicion_de(self@, k@) is None,
    {
        proof {
            use_type_invariant(self);
        }
        let mut i: usize = 0;
        while i < self.entradas.len()
            invariant
                i <= self@.len(),
                self@.len() == self.entradas@.len(),
                claves_distintas(self@),
                forall|j: int| 0 <= j < i ==> self@[j].0 != k@,
            decreases self.entradas.len() - i,
        {
            if crate::texto::iguales(self.entradas[i].0.as_str(), k) {
                proof {
                    lema_posicion_unica(self@, i as int);
                }
                return Some(i);
            }
            i = i + 1;
        }
        proof {
            lema_posicion_de(self@, k@);
            if posicion_de(self@, k@) is Some {
                let p = posicion_de(self@, k@)->0;
                assert(self@[p].0 == k@);
            }
        }
        None
    }

    /// El ramo asociado a la clave `k`.
    pub fn get(&self, k: &str) -> (r: Option<&RamoDisponible>)
        ensures
            match r {
                Some(x) => ramo_de(self@, k@) == Some(x@),
                None => ramo_de(self@, k@) is None,
            },
    {
        match self.posicion(k) {
            Some(i) => Some(&self.entradas[i].1),
            None => None,
        }
    }

    /// Asocia `k` con `r`, reemplazando la entrada de `k` si ya existe.
    pub fn insert(&mut self, k: String, r: RamoDisponible)
        ensures
            final(self)@ == con_entrada(old(self)@, k@, r@),
    {
        proof {
            use_type_invariant(&*self);
        }
        let ghost anterior = self@;
        let ghost kv = k@;
        let ghost rv = r@;
        match self.posicion(k.as_str()) {
            Some(i) => {
                proof {
                    lema_posicion_de(anterior, kv);
                }
                let mut entradas: Vec<(String, RamoDisponible)> = Vec::new();
                std::mem::swap(&mut entradas, &mut self.entradas);
                entradas.set(i, (k, r));
                proof {
                    assert(vista_entradas(entradas@) =~= anterior.update(i as int, (kv, rv)));
                    let nuevo = vista_entradas(entradas@);
                    assert(claves_distintas(nuevo)) by {
                        assert forall|a: int, b: int|
                            0 <= a < nuevo.len() && 0 <= b < nuevo.len() && a != b implies #[trigger] nuevo[a].0
                            != #[trigger] nuevo[b].0 by {
                            assert(anterior[a].0 != anterior[b].0);
                        }
                    }
                }
                self.entradas = entradas;
            },
            None => {
                proof {
                    lema_posicion_de(anterior, kv);
                }
                let mut entradas: Vec<(String, RamoDisponible)> = Vec::new();
                std::mem::swap(&mut entradas, &mut self.entradas);
                entradas.push((k, r));
                proof {
                    assert(vista_entradas(entradas@) =~= anterior.push((kv, rv)));
                }
                self.entradas = entradas;
            },
        }
    }

    /// Cambia el `codigo_ref` del ramo de la entrada `i`.
    pub fn set_codigo_ref(&mut self, i: usize, c: Option<String>)
        requires
            i < old(self)@.len(),
        ensures
            final(self)@.len() == old(self)@.len(),
            final(self)@[i as int].0 == old(self)@[i as int].0,
            final(self)@[i as int].1 == (RamoVista {
                codigo_ref: vista_opcional(c),
                ..old(self)@[i as int].1
            }),
            forall|j: int| 0 <= j < old(self)@.len() && j != i ==> final(self)@[j] == old(self)@[j],
    {
        proof {
            use_type_invariant(&*self);
        }
        let ghost anterior = self@;
        let mut entradas: Vec<(String, RamoDisponible)> = Vec::new();
        std::mem::swap(&mut entradas, &mut self.entradas);
        let (k, mut r) = entradas.remove(i);
        r.codigo_ref = c;
        entradas.insert(i, (k, r));
        proof {
            let nuevo = vista_entradas(entradas@);
            assert(nuevo.len() == anterior.len());
            assert forall|j: int| 0 <= j < anterior.len() && j != i implies nuevo[j] == anterior[j] by {}
            assert(nuevo[i as int].0 == anterior[i as int].0);
            assert(claves_distintas(nuevo)) by {
                assert forall|a: int, b: int|
                    0 <= a < nuevo.len() && 0 <= b < nuevo.len() && a != b implies #[trigger] nuevo[a].0
                    != #[trigger] nuevo[b].0 by {
                    assert(anterior[a].0 != anterior[b].0);
                }
            }
        }
        self.entradas = entradas;
    }
}

/// Ley: en un mapa de claves distintas, después de asociar `k` con `r`,
/// `k` da `r`, las demás claves dan lo mismo que antes y las claves siguen
/// distintas.
pub proof fn ley_leer_lo_escrito(s: Seq<(Seq<char>, RamoVista)>, k: Seq<char>, r: RamoVista)
    requires
        claves_distintas(s),
    ensures
        ramo_de(con_entrada(s, k, r), k) == Some(r),
        forall|k2: Seq<char>| k2 != k ==> #[trigger] ramo_de(con_entrada(s, k, r), k2) == ramo_de(s, k2),
        claves_distintas(con_entrada(s, k, r)),
{
    let n = con_entrada(s, k, r);
    lema_posicion_de(s, k);
    match posicion_de(s, k) {
        Some(i) => {
            assert(claves_distintas(n)) by {
                assert forall|a: int, b: int|
                    0 <= a < n.len() && 0 <= b < n.len() && a != b implies #[trigger] n[a].0
                    != #[trigger] n[b].0 by {
                    assert(s[a].0 != s[b].0);
                }
            }
            lema_posicion_unica(n, i);
            assert forall|k2: Seq<char>| k2 != k implies #[trigger] ramo_de(n, k2) == ramo_de(
                s,
                k2,
            ) by {
                lema_posicion_de(s, k2);
                lema_posicion_de(n, k2);
                match posicion_de(s, k2) {
                    Some(j) => {
                        lema_posicion_unica(s, j);
                        lema_posicion_unica(n, j);
                    },
                    None => {
                        match posicion_de(n, k2) {
                            Some(j) => {
                                assert(n[j].0 == k2);
                                assert(s[j].0 == k2);
                            },
                            None => {},
                        }
                    },
                }
            }
        },
        None => {
            assert(claves_distintas(n)) by {
                assert forall|a: int, b: int|
                    0 <= a < n.len() && 0 <= b < n.len() && a != b implies #[trigger] n[a].0
                    != #[trigger] n[b].0 by {
                    if a < s.len() && b < s.len() {
                        assert(s[a].0 != s[b].0);
                    } else if a == s.len() {
                        assert(s[b].0 != k);
                    } else {
                        assert(s[a].0 != k);
                    }
                }
            }
            lema_posicion_unica(n, s.len() as int);
            assert forall|k2: Seq<char>| k2 != k implies #[trigger] ramo_de(n, k2) == ramo_de(
                s,
                k2,
            ) by {
                assert(n.drop_last() =~= s);
                assert(n.last().0 == k);
                assert(posicion_de(n, k2) == posicion_de(n.drop_last(), k2));
                lema_posicion_de(s, k2);
                match posicion_de(s, k2) {
                    Some(j) => {
                        assert(n[j] == s[j]);
                    },
                    None => {},
                }
            }
        },
    }
}

} // verus!
