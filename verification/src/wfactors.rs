//! Lists of weighting factors with their metadata: the text format and the rules that
//! complete, reduce and convert them.

use vstd::prelude::*;

use crate::components::{
    contains_carrier, picks, tagged_lines, Pick,
    begins, begins_with, is_data_line, is_meta_line, join_lines, read_meta_lines, read_metas,
    trimmed_lines, Components,
};
use crate::error::{is_parse_error, EpbdError};
use crate::record::{append_chars, join, views};
use crate::text::{chars_of, concat, lemma_trim_idempotent, lines_of, string_of, trim, trim_all};
use crate::types::factor::{factor_error, factor_read, Factor, FactorTexts, FactorView};
use crate::types::metavec::metas_view;
use crate::types::energy::Energy;
use crate::types::{Carrier, Dest, Meta, MetaVec, ProdSource, Source, Step};

verus! {

broadcast use vstd::string::group_string_axioms;

/// Weighting factors with their metadata.
#[derive(Debug, Clone)]
pub struct Factors<F> {
    /// Metadata
    pub wmeta: Vec<Meta>,
    /// Weighting factors
    pub wdata: Vec<Factor<F>>,
}

/// Default and user defined values of the factors that users may set.
#[derive(Debug, Copy, Clone)]
pub struct UserWF<T> {
    /// District network 1: RED1, RED, SUMINISTRO, A
    pub red1: T,
    /// District network 2: RED2, RED, SUMINISTRO, A
    pub red2: T,
    /// Cogenerated electricity exported to the grid: ELECTRICIDAD, COGEN, A_RED, A
    pub cogen_to_grid: T,
    /// Cogenerated electricity exported to non EPB uses: ELECTRICIDAD, COGEN, A_NEPB, A
    pub cogen_to_nepb: T,
}

/// What the factors of a list hold.
pub open spec fn fviews<F>(s: Seq<Factor<F>>) -> Seq<FactorView<F>> {
    s.map_values(|f: Factor<F>| f@)
}

/// Whether a factor is the one of this carrier, source, destination and step.
pub open spec fn has_key<F>(f: FactorView<F>, c: Carrier, so: Source, d: Dest, st: Step) -> bool {
    f.carrier == c && f.source == so && f.dest == d && f.step == st
}

/// The position of the first factor with this carrier, source, destination and step.
pub open spec fn factor_pos<F>(s: Seq<FactorView<F>>, c: Carrier, so: Source, d: Dest, st: Step) -> Option<int>
    decreases s.len(),
{
    if s.len() == 0 {
        None
    } else if has_key(s[0], c, so, d, st) {
        Some(0)
    } else {
        match factor_pos(s.drop_first(), c, so, d, st) {
            Some(i) => Some(i + 1),
            None => None,
        }
    }
}

/// The factors after setting the values of the factor with this key: the first factor
/// with the key takes the values (its comment stays), or a factor with the values and the
/// comment is added at the end.
pub open spec fn updated<F>(
    s: Seq<FactorView<F>>,
    c: Carrier,
    so: Source,
    d: Dest,
    st: Step,
    v: F,
    comment: Seq<char>,
) -> Seq<FactorView<F>> {
    match factor_pos(s, c, so, d, st) {
        Some(i) => s.update(i, FactorView { values: v, ..s[i] }),
        None => s.push(FactorView { carrier: c, source: so, dest: d, step: st, values: v, comment }),
    }
}

/// The factors after making sure that a factor with this key exists: when none does, a
/// factor with the values and the comment is added at the end.
pub open spec fn ensured<F>(
    s: Seq<FactorView<F>>,
    c: Carrier,
    so: Source,
    d: Dest,
    st: Step,
    v: F,
    comment: Seq<char>,
) -> Seq<FactorView<F>> {
    match factor_pos(s, c, so, d, st) {
        Some(_) => s,
        None => s.push(FactorView { carrier: c, source: so, dest: d, step: st, values: v, comment }),
    }
}

/// `factor_pos` is the first position that holds the key.
pub proof fn lemma_factor_pos<F>(s: Seq<FactorView<F>>, c: Carrier, so: Source, d: Dest, st: Step)
    ensures
        match factor_pos(s, c, so, d, st) {
            Some(i) => 0 <= i < s.len() && has_key(s[i], c, so, d, st) && forall|j: int|
                0 <= j < i ==> !has_key(#[trigger] s[j], c, so, d, st),
            None => forall|j: int| 0 <= j < s.len() ==> !has_key(#[trigger] s[j], c, so, d, st),
        },
    decreases s.len(),
{
    if s.len() > 0 && !has_key(s[0], c, so, d, st) {
        lemma_factor_pos(s.drop_first(), c, so, d, st);
        match factor_pos(s.drop_first(), c, so, d, st) {
            Some(i) => {
                assert forall|j: int| 0 <= j < i + 1 implies !has_key(#[trigger] s[j], c, so, d, st) by {
                    if j > 0 {
                        assert(s[j] == s.drop_first()[j - 1]);
                    }
                }
            },
            None => {
                assert forall|j: int| 0 <= j < s.len() implies !has_key(#[trigger] s[j], c, so, d, st) by {
                    if j > 0 {
                        assert(s[j] == s.drop_first()[j - 1]);
                    }
                }
            },
        }
    }
}

/// A position is `factor_pos` when it holds the key and no earlier one does.
proof fn lemma_factor_pos_at<F>(s: Seq<FactorView<F>>, c: Carrier, so: Source, d: Dest, st: Step, i: int)
    requires
        0 <= i <= s.len(),
        forall|j: int| 0 <= j < i ==> !has_key(#[trigger] s[j], c, so, d, st),
        i < s.len() ==> has_key(s[i], c, so, d, st),
    ensures
        factor_pos(s, c, so, d, st) == (if i < s.len() {
            Some(i)
        } else {
            None::<int>
        }),
{
    lemma_factor_pos(s, c, so, d, st);
    match factor_pos(s, c, so, d, st) {
        Some(x) => {
            if x < i {
                assert(!has_key(s[x], c, so, d, st));
            }
            if x > i {
                assert(!has_key(s[i], c, so, d, st));
            }
        },
        None => {
            if i < s.len() {
                assert(!has_key(s[i], c, so, d, st));
            }
        },
    }
}

/// The view of a list after a push.
proof fn lemma_fviews_push<F>(s: Seq<Factor<F>>, f: Factor<F>)
    ensures
        fviews(s.push(f)) == fviews(s).push(f@),
{
    assert(fviews(s.push(f)) =~= fviews(s).push(f@));
}

impl<F: Copy> Factors<F> {
    /// The position of the first factor with this carrier, source, destination and step.
    pub fn find_wfactor(&self, carrier: Carrier, source: Source, dest: Dest, step: Step) -> (r: Option<usize>)
        ensures
            match r {
                Some(i) => factor_pos(fviews(self.wdata@), carrier, source, dest, step) == Some(i as int),
                None => factor_pos(fviews(self.wdata@), carrier, source, dest, step) is None,
            },
    {
        let mut i: usize = 0;
        while i < self.wdata.len()
            invariant
                i <= self.wdata@.len(),
                forall|j: int| 0 <= j < i ==> !has_key(#[trigger] fviews(self.wdata@)[j], carrier, source, dest, step),
            decreases self.wdata@.len() - i,
        {
            let f = &self.wdata[i];
            assert(fviews(self.wdata@)[i as int] == self.wdata@[i as int]@);
            if f.carrier == carrier && f.source == source && f.dest == dest && f.step == step {
                proof {
                    lemma_factor_pos_at(fviews(self.wdata@), carrier, source, dest, step, i as int);
                }
                return Some(i);
            }
            i = i + 1;
        }
        proof {
            lemma_factor_pos_at(fviews(self.wdata@), carrier, source, dest, step, i as int);
        }
        None
    }

    /// Updates the values of the factor of this carrier, source, destination and step, or
    /// adds a factor with them.
    pub fn update_wfactor(
        &mut self,
        carrier: Carrier,
        source: Source,
        dest: Dest,
        step: Step,
        values: F,
        comment: &str,
    )
        ensures
            fviews(final(self).wdata@) == updated(fviews(old(self).wdata@), carrier, source, dest, step, values, comment@),
            final(self).wmeta == old(self).wmeta,
    {
        let ghost s0 = fviews(self.wdata@);
        proof {
            lemma_factor_pos(s0, carrier, source, dest, step);
            assert(s0.len() == self.wdata@.len());
        }
        match self.find_wfactor(carrier, source, dest, step) {
            Some(i) => {
                assert(s0[i as int] == self.wdata@[i as int]@);
                let mut f = self.wdata.remove(i);
                let ghost before = f@;
                f.set_values(&values);
                let ghost mid = self.wdata@;
                self.wdata.insert(i, f);
                proof {
                    assert(before == s0[i as int]);
                    assert(self.wdata@ =~= old(self).wdata@.update(i as int, f));
                    assert(fviews(self.wdata@) =~= s0.update(i as int, FactorView { values: values, ..s0[i as int] }));
                    assert(factor_pos(s0, carrier, source, dest, step) == Some(i as int));
                    assert(fviews(self.wdata@) == updated(s0, carrier, source, dest, step, values, comment@));
                }
            },
            None => {
                let f = Factor::new(carrier, source, dest, step, values, comment);
                let ghost before = self.wdata@;
                self.wdata.push(f);
                proof {
                    lemma_fviews_push(before, f);
                    assert(factor_pos(s0, carrier, source, dest, step) is None);
                    assert(fviews(self.wdata@) == updated(s0, carrier, source, dest, step, values, comment@));
                }
            },
        }
    }

    /// Makes sure that a factor of this carrier, source, destination and step exists: adds
    /// one with the values when there is none; an existing one is not changed.
    pub fn ensure_wfactor(
        &mut self,
        carrier: Carrier,
        source: Source,
        dest: Dest,
        step: Step,
        values: F,
        comment: &str,
    )
        ensures
            fviews(final(self).wdata@) == ensured(fviews(old(self).wdata@), carrier, source, dest, step, values, comment@),
            final(self).wmeta == old(self).wmeta,
    {
        if self.find_wfactor(carrier, source, dest, step).is_none() {
            let f = Factor::new(carrier, source, dest, step, values, comment);
            let ghost before = self.wdata@;
            self.wdata.push(f);
            proof {
                lemma_fviews_push(before, f);
            }
        }
    }
}

impl<F> MetaVec for Factors<F> {
    open spec fn meta_seq(&self) -> Seq<Meta> {
        self.wmeta@
    }

    fn get_metavec(&self) -> (r: &Vec<Meta>) {
        &self.wmeta
    }

    fn set_meta(&mut self, key: &str, value: &str) {
        crate::types::metavec::set_meta(&mut self.wmeta, key, value);
    }
}

/// The factors after setting the user values that are given.
pub open spec fn with_user_values<F>(s: Seq<FactorView<F>>, user: UserWF<Option<F>>) -> Seq<FactorView<F>> {
    let c = "Factor de usuario"@;
    let s1 = match user.cogen_to_grid {
        Some(v) => updated(s, Carrier::ELECTRICIDAD, Source::COGEN, Dest::A_RED, Step::A, v, c),
        None => s,
    };
    let s2 = match user.cogen_to_nepb {
        Some(v) => updated(s1, Carrier::ELECTRICIDAD, Source::COGEN, Dest::A_NEPB, Step::A, v, c),
        None => s1,
    };
    let s3 = match user.red1 {
        Some(v) => updated(s2, Carrier::RED1, Source::RED, Dest::SUMINISTRO, Step::A, v, c),
        None => s2,
    };
    match user.red2 {
        Some(v) => updated(s3, Carrier::RED2, Source::RED, Dest::SUMINISTRO, Step::A, v, c),
        None => s3,
    }
}

/// The factors for the energy that a carrier produced from a source exports, in steps A
/// and B, or the detail of the error when the carrier has no grid supply factor.
pub open spec fn with_export_factors<F>(
    s: Seq<FactorView<F>>,
    c: Carrier,
    so: Source,
    defaults: UserWF<F>,
) -> Result<Seq<FactorView<F>>, Seq<char>> {
    let s1 = if so != Source::COGEN {
        match factor_pos(s, c, so, Dest::SUMINISTRO, Step::A) {
            Some(i) => ensured(
                ensured(
                    s,
                    c,
                    so,
                    Dest::A_RED,
                    Step::A,
                    s[i].values,
                    "Recursos usados para producir la energía exportada a la red"@,
                ),
                c,
                so,
                Dest::A_NEPB,
                Step::A,
                s[i].values,
                "Recursos usados para producir la energía exportada a usos no EPB"@,
            ),
            None => s,
        }
    } else {
        ensured(
            ensured(
                s,
                Carrier::ELECTRICIDAD,
                Source::COGEN,
                Dest::A_RED,
                Step::A,
                defaults.cogen_to_grid,
                "Recursos usados para producir la energía exportada a la red. Valor predefinido"@,
            ),
            Carrier::ELECTRICIDAD,
            Source::COGEN,
            Dest::A_NEPB,
            Step::A,
            defaults.cogen_to_nepb,
            "Recursos usados para producir la energía exportada a usos no EPB. Valor predefinido"@,
        )
    };
    match factor_pos(s1, c, Source::RED, Dest::SUMINISTRO, Step::A) {
        Some(i) => Ok(
            ensured(
                ensured(
                    s1,
                    c,
                    so,
                    Dest::A_RED,
                    Step::B,
                    s1[i].values,
                    "Recursos ahorrados a la red por la energía producida in situ y exportada a la red"@,
                ),
                c,
                so,
                Dest::A_NEPB,
                Step::B,
                s1[i].values,
                "Recursos ahorrados a la red por la energía producida in situ y exportada a usos no EPB"@,
            ),
        ),
        None => Err(c.spec_name() + ", SUMINISTRO, A"@),
    }
}

/// Whether every carrier of `s0` has a grid supply factor in `s`.
pub open spec fn grid_factors_for_all<F>(s0: Seq<FactorView<F>>, s: Seq<FactorView<F>>) -> bool {
    forall|i: int|
        0 <= i < s0.len() ==> factor_pos(s, (#[trigger] s0[i]).carrier, Source::RED, Dest::SUMINISTRO, Step::A)
            is Some
}

/// The factors with the on site and environment factors, in order.
pub open spec fn with_onsite_factors<F>(s0: Seq<FactorView<F>>, renewable: F) -> Seq<FactorView<F>> {
    let s1 = updated(
        s0,
        Carrier::EAMBIENTE,
        Source::INSITU,
        Dest::SUMINISTRO,
        Step::A,
        renewable,
        "Recursos usados para obtener energía ambiente"@,
    );
    let s2 = updated(
        s1,
        Carrier::EAMBIENTE,
        Source::RED,
        Dest::SUMINISTRO,
        Step::A,
        renewable,
        "Recursos usados para obtener energía ambiente (red ficticia)"@,
    );
    let s3 = updated(
        s2,
        Carrier::TERMOSOLAR,
        Source::INSITU,
        Dest::SUMINISTRO,
        Step::A,
        renewable,
        "Recursos usados para obtener energía solar térmica"@,
    );
    let s4 = updated(
        s3,
        Carrier::TERMOSOLAR,
        Source::RED,
        Dest::SUMINISTRO,
        Step::A,
        renewable,
        "Recursos usados para obtener energía solar térmica (red ficticia)"@,
    );
    if exists|i: int| 0 <= i < s0.len() && (#[trigger] s0[i]).carrier == Carrier::ELECTRICIDAD {
        updated(
            s4,
            Carrier::ELECTRICIDAD,
            Source::INSITU,
            Dest::SUMINISTRO,
            Step::A,
            renewable,
            "Recursos usados para generar electricidad in situ"@,
        )
    } else {
        s4
    }
}

/// The detail of the error for carriers without grid supply factors.
pub open spec fn missing_grid_detail() -> Seq<char> {
    "Factores de red VECTOR, INSITU, SUMINISTRO, A, fren?, fnren?"@
}

/// The normalized factors, or the detail of the `MissingFactor` error.
///
/// `renewable` stands for the values (1, 0, 0) and `zero` for (0, 0, 0).
pub open spec fn normalized<F>(s0: Seq<FactorView<F>>, defaults: UserWF<F>, renewable: F, zero: F) -> Result<
    Seq<FactorView<F>>,
    Seq<char>,
> {
    let s5 = with_onsite_factors(s0, renewable);
    if !grid_factors_for_all(s0, s5) {
        Err(missing_grid_detail())
    } else {
        let s6 = updated(
            s5,
            Carrier::ELECTRICIDAD,
            Source::COGEN,
            Dest::SUMINISTRO,
            Step::A,
            zero,
            "Factor de paso generado (el impacto de la cogeneración se tiene en cuenta en el vector de suministro)"@,
        );
        match with_export_factors(s6, Carrier::ELECTRICIDAD, Source::INSITU, defaults) {
            Err(m) => Err(m),
            Ok(s7) => match with_export_factors(s7, Carrier::ELECTRICIDAD, Source::COGEN, defaults) {
                Err(m) => Err(m),
                Ok(s8) => match with_export_factors(s8, Carrier::EAMBIENTE, Source::INSITU, defaults) {
                    Err(m) => Err(m),
                    Ok(s9) => match with_export_factors(
                        s9,
                        Carrier::TERMOSOLAR,
                        Source::INSITU,
                        defaults,
                    ) {
                        Err(m) => Err(m),
                        Ok(s10) => Ok(
                            ensured(
                                ensured(
                                    s10,
                                    Carrier::RED1,
                                    Source::RED,
                                    Dest::SUMINISTRO,
                                    Step::A,
                                    defaults.red1,
                                    "Recursos usados para suministrar energía de la red de distrito 1 (definible por el usuario)"@,
                                ),
                                Carrier::RED2,
                                Source::RED,
                                Dest::SUMINISTRO,
                                Step::A,
                                defaults.red2,
                                "Recursos usados para suministrar energía de la red de distrito 2 (definible por el usuario)"@,
                            ),
                        ),
                    },
                },
            },
        }
    }
}

impl<F: Copy> Factors<F> {
    /// Sets the factors that users may define (cogeneration to the grid and to non EPB
    /// uses, district networks 1 and 2) to the user values that are given.
    pub fn set_user_wfactors(self, user: UserWF<Option<F>>) -> (r: Self)
        ensures
            fviews(r.wdata@) == with_user_values(fviews(self.wdata@), user),
            r.wmeta == self.wmeta,
    {
        let mut s = self;
        let c = "Factor de usuario";
        if let Some(v) = user.cogen_to_grid {
            s.update_wfactor(Carrier::ELECTRICIDAD, Source::COGEN, Dest::A_RED, Step::A, v, c);
        }
        if let Some(v) = user.cogen_to_nepb {
            s.update_wfactor(Carrier::ELECTRICIDAD, Source::COGEN, Dest::A_NEPB, Step::A, v, c);
        }
        if let Some(v) = user.red1 {
            s.update_wfactor(Carrier::RED1, Source::RED, Dest::SUMINISTRO, Step::A, v, c);
        }
        if let Some(v) = user.red2 {
            s.update_wfactor(Carrier::RED2, Source::RED, Dest::SUMINISTRO, Step::A, v, c);
        }
        s
    }

    /// Adds the factors for the energy that a carrier produced from a source exports.
    fn add_export_factors(&mut self, c: Carrier, so: Source, defaults: &UserWF<F>) -> (r: Result<(), EpbdError>)
        ensures
            final(self).wmeta == old(self).wmeta,
            match with_export_factors(fviews(old(self).wdata@), c, so, *defaults) {
                Ok(s) => r is Ok && fviews(final(self).wdata@) == s,
                Err(m) => r matches Err(EpbdError::MissingFactor(x)) && x@ == m,
            },
    {
        let ghost s = fviews(self.wdata@);
        if so != Source::COGEN {
            match self.find_wfactor(c, so, Dest::SUMINISTRO, Step::A) {
                Some(i) => {
                    proof {
                        lemma_factor_pos(s, c, so, Dest::SUMINISTRO, Step::A);
                    }
                    assert(s[i as int] == self.wdata@[i as int]@);
                    let v = self.wdata[i].values;
                    self.ensure_wfactor(
                        c,
                        so,
                        Dest::A_RED,
                        Step::A,
                        v,
                        "Recursos usados para producir la energía exportada a la red",
                    );
                    self.ensure_wfactor(
                        c,
                        so,
                        Dest::A_NEPB,
                        Step::A,
                        v,
                        "Recursos usados para producir la energía exportada a usos no EPB",
                    );
                },
                None => {},
            }
        } else {
            self.ensure_wfactor(
                Carrier::ELECTRICIDAD,
                Source::COGEN,
                Dest::A_RED,
                Step::A,
                defaults.cogen_to_grid,
                "Recursos usados para producir la energía exportada a la red. Valor predefinido",
            );
            self.ensure_wfactor(
                Carrier::ELECTRICIDAD,
                Source::COGEN,
                Dest::A_NEPB,
                Step::A,
                defaults.cogen_to_nepb,
                "Recursos usados para producir la energía exportada a usos no EPB. Valor predefinido",
            );
        }
        let ghost s1 = fviews(self.wdata@);
        match self.find_wfactor(c, Source::RED, Dest::SUMINISTRO, Step::A) {
            Some(i) => {
                proof {
                    lemma_factor_pos(s1, c, Source::RED, Dest::SUMINISTRO, Step::A);
                }
                assert(s1[i as int] == self.wdata@[i as int]@);
                let v = self.wdata[i].values;
                self.ensure_wfactor(
                    c,
                    so,
                    Dest::A_RED,
                    Step::B,
                    v,
                    "Recursos ahorrados a la red por la energía producida in situ y exportada a la red",
                );
                self.ensure_wfactor(
                    c,
                    so,
                    Dest::A_NEPB,
                    Step::B,
                    v,
                    "Recursos ahorrados a la red por la energía producida in situ y exportada a usos no EPB",
                );
                Ok(())
            },
            None => Err(EpbdError::MissingFactor(concat(c.as_str(), ", SUMINISTRO, A"))),
        }
    }

    /// Whether every carrier of the list has a grid supply factor in these factors.
    fn has_grid_factors(&self, carriers: &Vec<Carrier>) -> (r: bool)
        ensures
            r == forall|i: int|
                0 <= i < carriers@.len() ==> factor_pos(
                    fviews(self.wdata@),
                    #[trigger] carriers@[i],
                    Source::RED,
                    Dest::SUMINISTRO,
                    Step::A,
                ) is Some,
    {
        let mut k: usize = 0;
        while k < carriers.len()
            invariant
                k <= carriers@.len(),
                forall|i: int|
                    0 <= i < k ==> factor_pos(
                        fviews(self.wdata@),
                        #[trigger] carriers@[i],
                        Source::RED,
                        Dest::SUMINISTRO,
                        Step::A,
                    ) is Some,
            decreases carriers@.len() - k,
        {
            if self.find_wfactor(carriers[k], Source::RED, Dest::SUMINISTRO, Step::A).is_none() {
                return false;
            }
            k = k + 1;
        }
        true
    }

    /// Makes the factors consistent and adds those that can be deduced:
    ///
    /// - factors of the environment and solar thermal energy, on site and from a notional
    ///   grid, with the values `renewable` (1, 0, 0);
    /// - the factor of electricity produced on site, when there is electricity;
    /// - every carrier must have a grid supply factor (else `MissingFactor`);
    /// - the supply factor of cogenerated electricity is `zero` (0, 0, 0): its impact is in
    ///   the carrier that feeds the cogeneration;
    /// - the factors of exported energy (to the grid and to non EPB uses, steps A and B) of
    ///   the carriers produced on site or by cogeneration, with default values for
    ///   cogeneration (`MissingFactor` for a carrier without grid supply factor);
    /// - the district network factors RED1 and RED2, with default values.
    pub fn normalize(self, defaults: &UserWF<F>, renewable: F, zero: F) -> (r: Result<Self, EpbdError>)
        ensures
            match normalized(fviews(self.wdata@), *defaults, renewable, zero) {
                Ok(s) => r matches Ok(x) && fviews(x.wdata@) == s && x.wmeta == self.wmeta,
                Err(m) => r matches Err(EpbdError::MissingFactor(x)) && x@ == m,
            },
    {
        let ghost s0 = fviews(self.wdata@);
        let mut s = self;
        let mut carriers: Vec<Carrier> = Vec::new();
        let mut k: usize = 0;
        let mut has_el = false;
        while k < s.wdata.len()
            invariant
                k <= s.wdata@.len(),
                s0 == fviews(s.wdata@),
                carriers@.len() == k,
                forall|i: int| 0 <= i < k ==> carriers@[i] == (#[trigger] s0[i]).carrier,
                has_el == exists|i: int| 0 <= i < k && (#[trigger] s0[i]).carrier == Carrier::ELECTRICIDAD,
            decreases s.wdata@.len() - k,
        {
            assert(s0[k as int] == s.wdata@[k as int]@);
            let c = s.wdata[k].carrier;
            carriers.push(c);
            if c == Carrier::ELECTRICIDAD {
                has_el = true;
            }
            k = k + 1;
        }
        s.update_wfactor(
            Carrier::EAMBIENTE,
            Source::INSITU,
            Dest::SUMINISTRO,
            Step::A,
            renewable,
            "Recursos usados para obtener energía ambiente",
        );
        s.update_wfactor(
            Carrier::EAMBIENTE,
            Source::RED,
            Dest::SUMINISTRO,
            Step::A,
            renewable,
            "Recursos usados para obtener energía ambiente (red ficticia)",
        );
        s.update_wfactor(
            Carrier::TERMOSOLAR,
            Source::INSITU,
            Dest::SUMINISTRO,
            Step::A,
            renewable,
            "Recursos usados para obtener energía solar térmica",
        );
        s.update_wfactor(
            Carrier::TERMOSOLAR,
            Source::RED,
            Dest::SUMINISTRO,
            Step::A,
            renewable,
            "Recursos usados para obtener energía solar térmica (red ficticia)",
        );
        if has_el {
            s.update_wfactor(
                Carrier::ELECTRICIDAD,
                Source::INSITU,
                Dest::SUMINISTRO,
                Step::A,
                renewable,
                "Recursos usados para generar electricidad in situ",
            );
        }
        assert(fviews(s.wdata@) == with_onsite_factors(s0, renewable));
        if !s.has_grid_factors(&carriers) {
            proof {
                let i = choose|i: int|
                    0 <= i < carriers@.len() && factor_pos(
                        fviews(s.wdata@),
                        #[trigger] carriers@[i],
                        Source::RED,
                        Dest::SUMINISTRO,
                        Step::A,
                    ) is None;
                assert(carriers@[i] == s0[i].carrier);
            }
            return Err(
                EpbdError::MissingFactor(
                    string_of(
                        chars_of("Factores de red VECTOR, INSITU, SUMINISTRO, A, fren?, fnren?").as_slice(),
                    ),
                ),
            );
        }
        proof {
            assert forall|i: int| 0 <= i < s0.len() implies factor_pos(
                fviews(s.wdata@),
                (#[trigger] s0[i]).carrier,
                Source::RED,
                Dest::SUMINISTRO,
                Step::A,
            ) is Some by {
                assert(carriers@[i] == s0[i].carrier);
            }
        }
        s.update_wfactor(
            Carrier::ELECTRICIDAD,
            Source::COGEN,
            Dest::SUMINISTRO,
            Step::A,
            zero,
            "Factor de paso generado (el impacto de la cogeneración se tiene en cuenta en el vector de suministro)",
        );
        match s.add_export_factors(Carrier::ELECTRICIDAD, Source::INSITU, defaults) {
            Ok(()) => {},
            Err(e) => {
                return Err(e);
            },
        }
        match s.add_export_factors(Carrier::ELECTRICIDAD, Source::COGEN, defaults) {
            Ok(()) => {},
            Err(e) => {
                return Err(e);
            },
        }
        match s.add_export_factors(Carrier::EAMBIENTE, Source::INSITU, defaults) {
            Ok(()) => {},
            Err(e) => {
                return Err(e);
            },
        }
        match s.add_export_factors(Carrier::TERMOSOLAR, Source::INSITU, defaults) {
            Ok(()) => {},
            Err(e) => {
                return Err(e);
            },
        }
        s.ensure_wfactor(
            Carrier::RED1,
            Source::RED,
            Dest::SUMINISTRO,
            Step::A,
            defaults.red1,
            "Recursos usados para suministrar energía de la red de distrito 1 (definible por el usuario)",
        );
        s.ensure_wfactor(
            Carrier::RED2,
            Source::RED,
            Dest::SUMINISTRO,
            Step::A,
            defaults.red2,
            "Recursos usados para suministrar energía de la red de distrito 2 (definible por el usuario)",
        );
        Ok(s)
    }
}

/// Whether `strip` keeps a factor for components `c`: its carrier is used or produced,
/// cogeneration factors only with cogeneration, factors to non EPB uses only with non EPB
/// uses, and factors of electricity produced on site only with such a production.
pub open spec fn kept_by_strip<F, T>(f: FactorView<F>, c: Seq<Energy<T>>) -> bool {
    &&& exists|k: int|
        0 <= k < c.len() && (c[k] is Used || c[k] is Prod) && (#[trigger] c[k]).spec_carrier()
            == f.carrier
    &&& (f.source != Source::COGEN || exists|k: int|
        0 <= k < c.len() && picks(Pick::CogenProduced, #[trigger] c[k]))
    &&& (f.dest != Dest::A_NEPB || exists|k: int|
        0 <= k < c.len() && picks(Pick::NepbUse, #[trigger] c[k]))
    &&& (!(f.carrier == Carrier::ELECTRICIDAD && f.source == Source::INSITU) || exists|k: int|
        0 <= k < c.len() && picks(Pick::OnsiteElectricity, #[trigger] c[k]))
}

/// Whether `to_nearby` keeps the values of a factor: it is produced on site or by
/// cogeneration, or its carrier is one of the nearby carriers.
pub open spec fn kept_by_nearby<F>(f: FactorView<F>, nearby: Seq<Carrier>) -> bool {
    f.source == Source::INSITU || f.source == Source::COGEN || nearby.contains(f.carrier)
}

/// `to_nearby` keeps the values of a factor exactly when it is produced on site or by
/// cogeneration, or its carrier stands at some position of the nearby list.
pub proof fn lemma_kept_by_nearby<F>(f: FactorView<F>, nearby: Seq<Carrier>)
    ensures
        kept_by_nearby(f, nearby) <==> (f.source == Source::INSITU || f.source == Source::COGEN
            || exists|m: int| 0 <= m < nearby.len() && nearby[m] == f.carrier),
{
}

/// What `kept_by_strip` says, on the components themselves.
proof fn lemma_kept_by_strip<F, T>(f: FactorView<F>, c: Seq<Energy<T>>)
    ensures
        kept_by_strip(f, c) <==> {
            &&& exists|k: int|
                0 <= k < c.len() && (c[k] is Used || c[k] is Prod) && (#[trigger] c[k]).spec_carrier() == f.carrier
            &&& f.dest == Dest::A_NEPB ==> exists|k: int| 0 <= k < c.len() && (#[trigger] c[k]).spec_is_nepb_use()
            &&& f.source == Source::COGEN ==> exists|k: int|
                0 <= k < c.len() && ((#[trigger] c[k]) matches Energy::Prod(x) && x.source == ProdSource::EL_COGEN)
            &&& (f.carrier == Carrier::ELECTRICIDAD && f.source == Source::INSITU) ==> exists|k: int|
                0 <= k < c.len() && (#[trigger] c[k]).spec_is_electricity() && (c[k] matches Energy::Prod(x)
                    && x.source != ProdSource::EL_COGEN)
        },
{
    if f.dest == Dest::A_NEPB && exists|k: int| 0 <= k < c.len() && (#[trigger] c[k]).spec_is_nepb_use() {
        let k = choose|k: int| 0 <= k < c.len() && (#[trigger] c[k]).spec_is_nepb_use();
        assert(picks(Pick::NepbUse, c[k]));
    }
    if f.source == Source::COGEN && exists|k: int|
        0 <= k < c.len() && ((#[trigger] c[k]) matches Energy::Prod(x) && x.source == ProdSource::EL_COGEN) {
        let k = choose|k: int|
            0 <= k < c.len() && ((#[trigger] c[k]) matches Energy::Prod(x) && x.source == ProdSource::EL_COGEN);
        assert(picks(Pick::CogenProduced, c[k]));
    }
    if (f.carrier == Carrier::ELECTRICIDAD && f.source == Source::INSITU) && exists|k: int|
        0 <= k < c.len() && (#[trigger] c[k]).spec_is_electricity() && (c[k] matches Energy::Prod(x)
            && x.source != ProdSource::EL_COGEN) {
        let k = choose|k: int|
            0 <= k < c.len() && (#[trigger] c[k]).spec_is_electricity() && (c[k] matches Energy::Prod(x)
                && x.source != ProdSource::EL_COGEN);
        assert(picks(Pick::OnsiteElectricity, c[k]));
    }
}

/// Stripping keeps exactly the factors that the components use: each factor kept has a
/// carrier that some component uses or produces; it goes to non EPB uses only when some
/// component is a non EPB use; it comes from cogeneration only when some component is
/// cogenerated electricity; and it is of electricity produced on site only when some
/// component is such a production. Every factor with all of this is kept.
pub proof fn lemma_strip_keeps_what_is_used<F, T>(s: Seq<FactorView<F>>, c: Seq<Energy<T>>)
    ensures
        ({
            let r = s.filter(|f: FactorView<F>| kept_by_strip(f, c));
            &&& forall|i: int|
                #![trigger r[i]]
                0 <= i < r.len() ==> {
                    &&& exists|k: int|
                        0 <= k < c.len() && (c[k] is Used || c[k] is Prod) && (#[trigger] c[k]).spec_carrier()
                            == r[i].carrier
                    &&& r[i].dest == Dest::A_NEPB ==> exists|k: int|
                        0 <= k < c.len() && (#[trigger] c[k]).spec_is_nepb_use()
                    &&& r[i].source == Source::COGEN ==> exists|k: int|
                        0 <= k < c.len() && ((#[trigger] c[k]) matches Energy::Prod(x) && x.source
                            == ProdSource::EL_COGEN)
                    &&& (r[i].carrier == Carrier::ELECTRICIDAD && r[i].source == Source::INSITU) ==> exists|k: int|
                        0 <= k < c.len() && (#[trigger] c[k]).spec_is_electricity() && (c[k] matches Energy::Prod(
                            x,
                        ) && x.source != ProdSource::EL_COGEN)
                }
            &&& forall|i: int|
                #![trigger s[i]]
                0 <= i < s.len() && (exists|k: int|
                    0 <= k < c.len() && (c[k] is Used || c[k] is Prod) && (#[trigger] c[k]).spec_carrier()
                        == s[i].carrier) && (s[i].dest == Dest::A_NEPB ==> exists|k: int|
                    0 <= k < c.len() && (#[trigger] c[k]).spec_is_nepb_use()) && (s[i].source == Source::COGEN
                    ==> exists|k: int|
                    0 <= k < c.len() && ((#[trigger] c[k]) matches Energy::Prod(x) && x.source
                        == ProdSource::EL_COGEN)) && ((s[i].carrier == Carrier::ELECTRICIDAD && s[i].source
                    == Source::INSITU) ==> exists|k: int|
                    0 <= k < c.len() && (#[trigger] c[k]).spec_is_electricity() && (c[k] matches Energy::Prod(
                        x,
                    ) && x.source != ProdSource::EL_COGEN)) ==> r.contains(s[i])
        }),
{
    let keep = |f: FactorView<F>| kept_by_strip(f, c);
    let r = s.filter(keep);
    assert forall|i: int| 0 <= i < r.len() implies kept_by_strip(#[trigger] r[i], c) by {
        s.lemma_filter_pred(keep, i);
    }
    assert forall|i: int| 0 <= i < r.len() implies kept_by_strip(#[trigger] r[i], c) == kept_by_strip(r[i], c) by {
        lemma_kept_by_strip(r[i], c);
    }
    assert forall|i: int| 0 <= i < s.len() && kept_by_strip(#[trigger] s[i], c) implies r.contains(s[i]) by {
        s.lemma_filter_contains(keep, i);
    }
    assert forall|i: int| 0 <= i < s.len() implies kept_by_strip(#[trigger] s[i], c) == kept_by_strip(s[i], c) by {
        lemma_kept_by_strip(s[i], c);
    }
}

impl<F: Copy> Factors<F> {
    /// Removes the factors that the components do not use: those of carriers that are not
    /// used or produced, those of cogeneration without cogeneration, those to non EPB uses
    /// without non EPB uses, and those of electricity produced on site without such a
    /// production.
    pub fn strip<T>(self, components: &Components<T>) -> (r: Self)
        ensures
            fviews(r.wdata@) == fviews(self.wdata@).filter(
                |f: FactorView<F>| kept_by_strip(f, components.cdata@),
            ),
            r.wmeta == self.wmeta,
            // Every factor kept is used by the components
            forall|i: int|
                #![trigger r.wdata@[i]]
                0 <= i < r.wdata@.len() ==> {
                    &&& exists|k: int|
                        0 <= k < components.cdata@.len() && (components.cdata@[k] is Used
                            || components.cdata@[k] is Prod) && (#[trigger] components.cdata@[k]).spec_carrier()
                            == r.wdata@[i].carrier
                    &&& r.wdata@[i].dest == Dest::A_NEPB ==> exists|k: int|
                        0 <= k < components.cdata@.len() && (#[trigger] components.cdata@[k]).spec_is_nepb_use()
                    &&& r.wdata@[i].source == Source::COGEN ==> exists|k: int|
                        0 <= k < components.cdata@.len() && ((#[trigger] components.cdata@[k]) matches Energy::Prod(
                            x,
                        ) && x.source == ProdSource::EL_COGEN)
                    &&& (r.wdata@[i].carrier == Carrier::ELECTRICIDAD && r.wdata@[i].source == Source::INSITU)
                        ==> exists|k: int|
                        0 <= k < components.cdata@.len() && (#[trigger] components.cdata@[k]).spec_is_electricity()
                            && (components.cdata@[k] matches Energy::Prod(x) && x.source != ProdSource::EL_COGEN)
                },
            // Every factor that the components use is kept
            forall|i: int|
                #![trigger self.wdata@[i]]
                0 <= i < self.wdata@.len() && (exists|k: int|
                    0 <= k < components.cdata@.len() && (components.cdata@[k] is Used
                        || components.cdata@[k] is Prod) && (#[trigger] components.cdata@[k]).spec_carrier()
                        == self.wdata@[i].carrier) && (self.wdata@[i].dest == Dest::A_NEPB ==> exists|k: int|
                    0 <= k < components.cdata@.len() && (#[trigger] components.cdata@[k]).spec_is_nepb_use())
                    && (self.wdata@[i].source == Source::COGEN ==> exists|k: int|
                    0 <= k < components.cdata@.len() && ((#[trigger] components.cdata@[k]) matches Energy::Prod(
                        x,
                    ) && x.source == ProdSource::EL_COGEN)) && ((self.wdata@[i].carrier == Carrier::ELECTRICIDAD
                    && self.wdata@[i].source == Source::INSITU) ==> exists|k: int|
                    0 <= k < components.cdata@.len() && (#[trigger] components.cdata@[k]).spec_is_electricity()
                        && (components.cdata@[k] matches Energy::Prod(x) && x.source != ProdSource::EL_COGEN))
                    ==> fviews(r.wdata@).contains(self.wdata@[i]@),
    {
        let ghost w0 = self.wdata@;
        let carriers = components.available_carriers();
        let has_cogen = components.any_of(Pick::CogenProduced);
        let has_nepb = components.any_of(Pick::NepbUse);
        let has_elec_onsite = components.any_of(Pick::OnsiteElectricity);
        let ghost c = components.cdata@;
        let ghost keep = |f: FactorView<F>| kept_by_strip(f, c);
        let Factors { wmeta, wdata } = self;
        let mut src = wdata;
        let ghost s0 = fviews(src@);
        let mut out: Vec<Factor<F>> = Vec::new();
        let mut i: usize = 0;
        let n = src.len();
        assert(fviews(src@).skip(0) =~= s0);
        assert(s0.take(0) =~= Seq::<FactorView<F>>::empty());
        proof {
            reveal(Seq::filter);
        }
        while src.len() > 0
            invariant
                n == s0.len(),
                i + src@.len() == s0.len(),
                fviews(src@) == s0.skip(i as int),
                keep == (|f: FactorView<F>| kept_by_strip(f, c)),
                fviews(out@) == s0.take(i as int).filter(keep),
                forall|x: Carrier|
                    carriers@.contains(x) <==> exists|k: int|
                        0 <= k < c.len() && (c[k] is Used || c[k] is Prod)
                            && (#[trigger] c[k]).spec_carrier() == x,
                has_cogen == exists|k: int| 0 <= k < c.len() && picks(Pick::CogenProduced, #[trigger] c[k]),
                has_nepb == exists|k: int| 0 <= k < c.len() && picks(Pick::NepbUse, #[trigger] c[k]),
                has_elec_onsite == exists|k: int|
                    0 <= k < c.len() && picks(Pick::OnsiteElectricity, #[trigger] c[k]),
            decreases src@.len(),
        {
            let ghost before_src = src@;
            let x = src.remove(0);
            proof {
                assert(fviews(before_src)[0] == x@);
                assert(x@ == s0[i as int]);
                assert(src@ =~= before_src.drop_first());
                assert forall|j: int| 0 <= j < src@.len() implies #[trigger] fviews(src@)[j] == s0.skip(
                    i as int + 1,
                )[j] by {
                    assert(fviews(before_src)[j + 1] == s0.skip(i as int)[j + 1]);
                }
                assert(fviews(src@) =~= s0.skip(i as int + 1));
                assert(s0.take(i as int + 1).drop_last() =~= s0.take(i as int));
                assert(s0.take(i as int + 1).last() == x@);
                reveal(Seq::filter);
            }
            let keep_x = contains_carrier(&carriers, x.carrier) && (x.source != Source::COGEN
                || has_cogen) && (x.dest != Dest::A_NEPB || has_nepb) && (!(x.carrier
                == Carrier::ELECTRICIDAD && x.source == Source::INSITU) || has_elec_onsite);
            assert(keep_x == kept_by_strip(x@, c));
            if keep_x {
                let ghost before = out@;
                out.push(x);
                proof {
                    lemma_fviews_push(before, x);
                }
            }
            i = i + 1;
        }
        assert(s0.take(i as int) =~= s0);
        proof {
            assert forall|j: int| 0 <= j < out@.len() implies {
                &&& exists|k: int|
                    0 <= k < c.len() && (c[k] is Used || c[k] is Prod) && (#[trigger] c[k]).spec_carrier()
                        == (#[trigger] out@[j]).carrier
                &&& out@[j].dest == Dest::A_NEPB ==> exists|k: int|
                    0 <= k < c.len() && (#[trigger] c[k]).spec_is_nepb_use()
                &&& out@[j].source == Source::COGEN ==> exists|k: int|
                    0 <= k < c.len() && ((#[trigger] c[k]) matches Energy::Prod(x) && x.source
                        == ProdSource::EL_COGEN)
                &&& (out@[j].carrier == Carrier::ELECTRICIDAD && out@[j].source == Source::INSITU) ==> exists|k: int|
                    0 <= k < c.len() && (#[trigger] c[k]).spec_is_electricity() && (c[k] matches Energy::Prod(
                        x,
                    ) && x.source != ProdSource::EL_COGEN)
            } by {
                s0.lemma_filter_pred(keep, j);
                assert(fviews(out@)[j] == out@[j]@);
                lemma_kept_by_strip(out@[j]@, c);
            }
            assert forall|j: int| 0 <= j < w0.len() && kept_by_strip(#[trigger] w0[j]@, c) implies fviews(
                out@,
            ).contains(w0[j]@) by {
                assert(s0[j] == w0[j]@);
                s0.lemma_filter_contains(keep, j);
            }
            assert forall|j: int| 0 <= j < w0.len() implies kept_by_strip(#[trigger] w0[j]@, c) == ({
                &&& exists|k: int|
                    0 <= k < c.len() && (c[k] is Used || c[k] is Prod) && (#[trigger] c[k]).spec_carrier()
                        == w0[j].carrier
                &&& w0[j].dest == Dest::A_NEPB ==> exists|k: int|
                    0 <= k < c.len() && (#[trigger] c[k]).spec_is_nepb_use()
                &&& w0[j].source == Source::COGEN ==> exists|k: int|
                    0 <= k < c.len() && ((#[trigger] c[k]) matches Energy::Prod(x) && x.source
                        == ProdSource::EL_COGEN)
                &&& (w0[j].carrier == Carrier::ELECTRICIDAD && w0[j].source == Source::INSITU) ==> exists|k: int|
                    0 <= k < c.len() && (#[trigger] c[k]).spec_is_electricity() && (c[k] matches Energy::Prod(
                        x,
                    ) && x.source != ProdSource::EL_COGEN)
            }) by {
                lemma_kept_by_strip(w0[j]@, c);
            }
        }
        Factors { wmeta, wdata: out }
    }

    /// The factors for the nearby perimeter: the factors of carriers from the grid that
    /// are not nearby carriers get the values that `convert` gives for theirs and a comment
    /// that says so; the others stay. The metadata says `CTE_PERIMETRO: NEARBY`.
    pub fn to_nearby<C: Fn(F) -> F>(&self, nearby_list: &[Carrier], convert: C) -> (r: Self)
        requires
            forall|v: F| #[trigger] convert.requires((v,)),
        ensures
            metas_view(r.wmeta@) == crate::types::metavec::meta_set(
                metas_view(self.wmeta@),
                "CTE_PERIMETRO"@,
                "NEARBY"@,
            ),
            r.wdata@.len() == self.wdata@.len(),
            forall|i: int|
                0 <= i < self.wdata@.len() ==> {
                    let f = #[trigger] self.wdata@[i]@;
                    let g = r.wdata@[i]@;
                    if kept_by_nearby(f, nearby_list@) {
                        g == f
                    } else {
                        &&& g.carrier == f.carrier
                        &&& g.source == f.source
                        &&& g.dest == f.dest
                        &&& g.step == f.step
                        &&& convert.ensures((f.values,), g.values)
                        &&& g.comment == "Perímetro nearby: "@ + f.comment
                    }
                },
            // A factor whose carrier stands anywhere in the nearby list keeps its values
            forall|i: int, m: int|
                0 <= i < self.wdata@.len() && 0 <= m < nearby_list@.len() && #[trigger] nearby_list@[m]
                    == #[trigger] self.wdata@[i].carrier ==> r.wdata@[i]@ == self.wdata@[i]@,
            // A factor produced on site or by cogeneration keeps its values
            forall|i: int|
                0 <= i < self.wdata@.len() && (#[trigger] self.wdata@[i].source == Source::INSITU
                    || self.wdata@[i].source == Source::COGEN) ==> r.wdata@[i]@ == self.wdata@[i]@,
            // Any other factor whose carrier is not in the list is converted
            forall|i: int|
                0 <= i < self.wdata@.len() && #[trigger] self.wdata@[i].source != Source::INSITU
                    && self.wdata@[i].source != Source::COGEN && (forall|m: int|
                    0 <= m < nearby_list@.len() ==> nearby_list@[m] != self.wdata@[i].carrier) ==> {
                    &&& r.wdata@[i].carrier == self.wdata@[i].carrier
                    &&& r.wdata@[i].source == self.wdata@[i].source
                    &&& r.wdata@[i].dest == self.wdata@[i].dest
                    &&& r.wdata@[i].step == self.wdata@[i].step
                    &&& convert.ensures((self.wdata@[i].values,), r.wdata@[i].values)
                    &&& r.wdata@[i].comment@ == "Perímetro nearby: "@ + self.wdata@[i].comment@
                },
    {
        let mut wmeta = crate::types::metavec::copy_metas(&self.wmeta);
        let mut wdata: Vec<Factor<F>> = Vec::new();
        let mut k: usize = 0;
        while k < self.wdata.len()
            invariant
                k <= self.wdata@.len(),
                forall|v: F| #[trigger] convert.requires((v,)),
                wdata@.len() == k,
                forall|i: int|
                    0 <= i < k ==> {
                        let f = #[trigger] self.wdata@[i]@;
                        let g = wdata@[i]@;
                        if kept_by_nearby(f, nearby_list@) {
                            g == f
                        } else {
                            &&& g.carrier == f.carrier
                            &&& g.source == f.source
                            &&& g.dest == f.dest
                            &&& g.step == f.step
                            &&& convert.ensures((f.values,), g.values)
                            &&& g.comment == "Perímetro nearby: "@ + f.comment
                        }
                    },
            decreases self.wdata@.len() - k,
        {
            let f = &self.wdata[k];
            let mut nearby = false;
            let mut j: usize = 0;
            while j < nearby_list.len()
                invariant
                    j <= nearby_list@.len(),
                    nearby == exists|m: int| 0 <= m < j && nearby_list@[m] == f.carrier,
                decreases nearby_list@.len() - j,
            {
                if nearby_list[j] == f.carrier {
                    nearby = true;
                }
                j = j + 1;
            }
            if f.source == Source::INSITU || f.source == Source::COGEN || nearby {
                wdata.push(Factor::new(f.carrier, f.source, f.dest, f.step, f.values, f.comment.as_str()));
            } else {
                let v = convert(f.values);
                let comment = concat("Perímetro nearby: ", f.comment.as_str());
                wdata.push(Factor::new(f.carrier, f.source, f.dest, f.step, v, comment.as_str()));
            }
            k = k + 1;
        }
        crate::types::metavec::set_meta(&mut wmeta, "CTE_PERIMETRO", "NEARBY");
        proof {
            assert forall|i: int| 0 <= i < self.wdata@.len() implies kept_by_nearby(
                #[trigger] self.wdata@[i]@,
                nearby_list@,
            ) == (self.wdata@[i].source == Source::INSITU || self.wdata@[i].source == Source::COGEN
                || exists|m: int| 0 <= m < nearby_list@.len() && nearby_list@[m] == self.wdata@[i].carrier) by {
                lemma_kept_by_nearby(self.wdata@[i]@, nearby_list@);
            }
            assert forall|i: int|
                0 <= i < self.wdata@.len() && #[trigger] self.wdata@[i].source != Source::INSITU
                    && self.wdata@[i].source != Source::COGEN && (forall|m: int|
                    0 <= m < nearby_list@.len() ==> nearby_list@[m] != self.wdata@[i].carrier) implies {
                &&& wdata@[i].carrier == self.wdata@[i].carrier
                &&& wdata@[i].source == self.wdata@[i].source
                &&& wdata@[i].dest == self.wdata@[i].dest
                &&& wdata@[i].step == self.wdata@[i].step
                &&& convert.ensures((self.wdata@[i].values,), wdata@[i].values)
                &&& wdata@[i].comment@ == "Perímetro nearby: "@ + self.wdata@[i].comment@
            } by {
                lemma_kept_by_nearby(self.wdata@[i]@, nearby_list@);
                let f = self.wdata@[i]@;
                assert(!kept_by_nearby(f, nearby_list@));
            }
        }
        Factors { wmeta, wdata }
    }
}

// ------------------------------------------------------------ the text format

/// The trimmed lines of a text of factors.
pub open spec fn factor_text_lines(s: Seq<char>) -> Seq<Seq<char>> {
    trim_all(lines_of(s))
}

/// A data line that does not read as a factor.
pub open spec fn is_bad_factor_line(l: Seq<char>) -> bool {
    is_data_line(l) && factor_error(l) is Some
}

/// The position of the first data line that does not read as a factor (the number of
/// lines if none).
pub open spec fn first_bad_factor(ls: Seq<Seq<char>>) -> int
    decreases ls.len(),
{
    if ls.len() == 0 {
        0
    } else if is_bad_factor_line(ls[0]) {
        0
    } else {
        1 + first_bad_factor(ls.drop_first())
    }
}

/// The data lines of `ls`, in order.
pub open spec fn factor_lines(ls: Seq<Seq<char>>) -> Seq<Seq<char>> {
    tagged_lines(ls, |t: Seq<char>| true)
}

/// The detail of the error that reading `s` as factors gives, if it gives one: the first
/// metadata line that holds no metadata, else the first data line that is no factor.
pub open spec fn factors_error(s: Seq<char>) -> Option<Seq<char>> {
    let ls = factor_text_lines(s);
    match read_metas(ls) {
        Err(m) => Some(m),
        Ok(_) => if first_bad_factor(ls) < ls.len() {
            factor_error(ls[first_bad_factor(ls)])
        } else {
            None
        },
    }
}

/// Whether `w` is what the text `s` reads as: its metadata lines and its factor lines, in
/// order.
pub open spec fn factors_read(w: Factors<FactorTexts>, s: Seq<char>) -> bool {
    let ls = factor_text_lines(s);
    &&& read_metas(ls) == Ok::<_, Seq<char>>(metas_view(w.wmeta@))
    &&& w.wdata@.len() == factor_lines(ls).len()
    &&& forall|k: int|
        0 <= k < w.wdata@.len() ==> factor_read(#[trigger] w.wdata@[k], factor_lines(ls)[k])
}

/// A position is `first_bad_factor` when the line there does not read as a factor and
/// every earlier one does.
proof fn lemma_first_bad_factor(ls: Seq<Seq<char>>, i: int)
    requires
        0 <= i <= ls.len(),
        forall|j: int| 0 <= j < i ==> !is_bad_factor_line(#[trigger] ls[j]),
        i < ls.len() ==> is_bad_factor_line(ls[i]),
    ensures
        first_bad_factor(ls) == i,
    decreases i,
{
    if i > 0 {
        assert forall|j: int| 0 <= j < i - 1 implies !is_bad_factor_line(#[trigger] ls.drop_first()[j]) by {
            assert(ls.drop_first()[j] == ls[j + 1]);
        }
        if i < ls.len() {
            assert(ls.drop_first()[i - 1] == ls[i]);
        }
        lemma_first_bad_factor(ls.drop_first(), i - 1);
        assert(!is_bad_factor_line(ls[0]));
    }
}

impl Factors<FactorTexts> {
    /// Reads factors from their text: metadata lines (`#META key: value`) and factor lines
    /// (`carrier, source, dest, step, ren, nren, co2 [# comment]`). Empty lines, comment
    /// lines (`#`) and header lines (`vector,`) are skipped.
    pub fn from_text(s: &str) -> (r: Result<Factors<FactorTexts>, EpbdError>)
        ensures
            match factors_error(s@) {
                Some(m) => is_parse_error(r, m),
                None => r matches Ok(w) && factors_read(w, s@),
            },
    {
        let all = chars_of(s);
        let ls = trimmed_lines(all.as_slice());
        let ghost lv = views(ls@);
        proof {
            assert forall|j: int| 0 <= j < ls@.len() implies trim(#[trigger] views(ls@)[j])
                == views(ls@)[j] by {
                lemma_trim_idempotent(lines_of(s@)[j]);
            }
        }
        let wmeta = match read_meta_lines(&ls) {
            Ok(v) => v,
            Err(e) => {
                return Err(e);
            },
        };
        let mut wdata: Vec<Factor<FactorTexts>> = Vec::new();
        let mut i: usize = 0;
        assert(lv.take(0) =~= Seq::<Seq<char>>::empty());
        while i < ls.len()
            invariant
                i <= ls@.len(),
                lv == views(ls@),
                lv == factor_text_lines(s@),
                read_metas(lv) == Ok::<_, Seq<char>>(metas_view(wmeta@)),
                forall|j: int| 0 <= j < i ==> !is_bad_factor_line(#[trigger] lv[j]),
                wdata@.len() == factor_lines(lv.take(i as int)).len(),
                forall|k: int|
                    0 <= k < wdata@.len() ==> factor_read(
                        #[trigger] wdata@[k],
                        factor_lines(lv.take(i as int))[k],
                    ),
            decreases ls@.len() - i,
        {
            let l = ls[i].as_slice();
            let ghost lt = lv.take(i as int + 1);
            proof {
                assert(lv[i as int] == ls@[i as int]@);
                assert(lt.drop_last() =~= lv.take(i as int));
                assert(lt.last() == lv[i as int]);
            }
            if !(begins(l, "#") || begins(l, "vector,") || l.len() == 0) {
                let text = string_of(l);
                match Factor::from_text(text.as_str()) {
                    Ok(f) => {
                        wdata.push(f);
                    },
                    Err(e) => {
                        proof {
                            lemma_first_bad_factor(lv, i as int);
                        }
                        return Err(e);
                    },
                }
            }
            i = i + 1;
        }
        proof {
            assert(lv.take(i as int) =~= lv);
            lemma_first_bad_factor(lv, i as int);
        }
        Ok(Factors { wmeta, wdata })
    }

    /// The text of the factors: the metadata lines, a line break, and the factor lines.
    pub open spec fn spec_text(&self) -> Seq<char> {
        join(self.wmeta@.map_values(|m: Meta| m.spec_text()), "\n"@) + "\n"@ + join(
            self.wdata@.map_values(
                |f: Factor<FactorTexts>|
                    crate::record::record_text(crate::types::factor::factor_fields(f), f.comment@),
            ),
            "\n"@,
        )
    }

    /// The text of the factors: the metadata lines, a line break, and the factor lines.
    pub fn to_text(&self) -> (r: String)
        ensures
            r@ == self.spec_text(),
    {
        let ghost mt = self.wmeta@.map_values(|m: Meta| m.spec_text());
        let ghost ft = self.wdata@.map_values(
            |f: Factor<FactorTexts>|
                crate::record::record_text(crate::types::factor::factor_fields(f), f.comment@),
        );
        let mut metas: Vec<Vec<char>> = Vec::new();
        let mut k: usize = 0;
        while k < self.wmeta.len()
            invariant
                k <= self.wmeta@.len(),
                mt == self.wmeta@.map_values(|m: Meta| m.spec_text()),
                views(metas@) == mt.take(k as int),
            decreases self.wmeta@.len() - k,
        {
            let t = chars_of(self.wmeta[k].to_text().as_str());
            let ghost before = metas@;
            metas.push(t);
            proof {
                crate::record::lemma_views_push(before, t);
                assert(mt.take(k as int + 1) =~= mt.take(k as int).push(t@));
            }
            k = k + 1;
        }
        assert(mt.take(k as int) =~= mt);
        let mut datas: Vec<Vec<char>> = Vec::new();
        let mut k: usize = 0;
        while k < self.wdata.len()
            invariant
                k <= self.wdata@.len(),
                ft == self.wdata@.map_values(
                    |f: Factor<FactorTexts>|
                        crate::record::record_text(crate::types::factor::factor_fields(f), f.comment@),
                ),
                views(datas@) == ft.take(k as int),
            decreases self.wdata@.len() - k,
        {
            let t = chars_of(self.wdata[k].to_text().as_str());
            let ghost before = datas@;
            datas.push(t);
            proof {
                crate::record::lemma_views_push(before, t);
                assert(ft.take(k as int + 1) =~= ft.take(k as int).push(t@));
            }
            k = k + 1;
        }
        assert(ft.take(k as int) =~= ft);
        let mut v = join_lines(&metas);
        append_chars(&mut v, chars_of("\n").as_slice());
        let w = join_lines(&datas);
        append_chars(&mut v, w.as_slice());
        string_of(v.as_slice())
    }
}

impl std::str::FromStr for Factors<FactorTexts> {
    type Err = EpbdError;

    fn from_str(s: &str) -> (r: Result<Factors<FactorTexts>, EpbdError>)
        ensures
            match factors_error(s@) {
                Some(m) => is_parse_error(r, m),
                None => r matches Ok(w) && factors_read(w, s@),
            },
    {
        Factors::from_text(s)
    }
}

// ------------------------------------------------------------ the text of factors reads back

/// A factor whose line reads back as itself: values that are numbers written as plain
/// fields, a trimmed comment, and no line breaks.
pub open spec fn factor_reads_back(f: Factor<FactorTexts>) -> bool {
    &&& crate::record::plain_field(f.values.ren@) && crate::number::is_number_text(f.values.ren@)
    &&& crate::record::plain_field(f.values.nren@) && crate::number::is_number_text(f.values.nren@)
    &&& crate::record::plain_field(f.values.co2@) && crate::number::is_number_text(f.values.co2@)
    &&& !f.values.ren@.contains('\n') && !f.values.nren@.contains('\n') && !f.values.co2@.contains(
        '\n',
    )
    &&& trim(f.comment@) == f.comment@
    &&& !f.comment@.contains('\n')
}

/// The text of a factor line.
pub open spec fn factor_text(f: Factor<FactorTexts>) -> Seq<char> {
    crate::record::record_text(crate::types::factor::factor_fields(f), f.comment@)
}

/// The names of carriers begin with a capital letter.
proof fn lemma_carrier_initial(c: Carrier)
    ensures
        'A' <= c.spec_name()[0] <= 'Z',
        c.spec_name().len() > 0,
{
    match c {
        Carrier::EAMBIENTE => reveal_strlit("EAMBIENTE"),
        Carrier::BIOCARBURANTE => reveal_strlit("BIOCARBURANTE"),
        Carrier::BIOMASA => reveal_strlit("BIOMASA"),
        Carrier::BIOMASADENSIFICADA => reveal_strlit("BIOMASADENSIFICADA"),
        Carrier::CARBON => reveal_strlit("CARBON"),
        Carrier::ELECTRICIDAD => reveal_strlit("ELECTRICIDAD"),
        Carrier::GASNATURAL => reveal_strlit("GASNATURAL"),
        Carrier::GASOLEO => reveal_strlit("GASOLEO"),
        Carrier::GLP => reveal_strlit("GLP"),
        Carrier::RED1 => reveal_strlit("RED1"),
        Carrier::RED2 => reveal_strlit("RED2"),
        Carrier::TERMOSOLAR => reveal_strlit("TERMOSOLAR"),
    }
}

/// The line of a factor that reads back is a data line, and no metadata line, that reads
/// as the factor.
#[verifier::spinoff_prover]
#[verifier::rlimit(40)]
proof fn lemma_factor_line(f: Factor<FactorTexts>)
    requires
        factor_reads_back(f),
    ensures
        ({
            let t = factor_text(f);
            &&& !t.contains('\n')
            &&& trim(t) == t
            &&& is_data_line(t)
            &&& !is_meta_line(t)
            &&& factor_error(t) is None
            &&& factor_read(f, t)
        }),
{
    reveal_strlit(", ");
    reveal_strlit(" # ");
    crate::components::lemma_tag_initials();
    let p = crate::types::factor::factor_fields(f);
    let t = factor_text(f);
    Carrier::lemma_name_plain(f.carrier);
    Source::lemma_name_plain(f.source);
    Dest::lemma_name_plain(f.dest);
    Step::lemma_name_plain(f.step);
    lemma_carrier_initial(f.carrier);
    assert forall|i: int| 0 <= i < p.len() implies crate::record::plain_field(#[trigger] p[i]) && !p[
        i
    ].contains('\n') && p[i].len() > 0 by {}
    assert(!", "@.contains('\n'));
    crate::record::lemma_join_shape(p, ", "@, '\n');
    let j = join(p, ", "@);
    let tail: Seq<char> = if f.comment@.len() == 0 {
        Seq::empty()
    } else {
        seq![' ', '#', ' '] + f.comment@
    };
    assert(" # "@ =~= seq![' ', '#', ' ']);
    assert(t =~= j + tail);
    assert(!t.contains('\n')) by {
        if t.contains('\n') {
            let k = choose|k: int| 0 <= k < t.len() && t[k] == '\n';
            if k < j.len() {
                assert(j[k] == '\n');
            } else {
                assert(f.comment@[k - j.len() - 3] == '\n');
            }
        }
    }
    assert(t[0] == p[0][0]);
    crate::text::lemma_trimmed_ends(p.last());
    if f.comment@.len() > 0 {
        crate::text::lemma_trimmed_ends(f.comment@);
        assert(t.last() == f.comment@.last());
    } else {
        assert(t.last() == p.last().last());
    }
    crate::record::lemma_trim_fixed(t);
    if begins_with(t, "#"@) {
        assert(t.take(1)[0] == t[0]);
    }
    if begins_with(t, "vector,"@) {
        assert(t.take(7)[0] == t[0]);
    }
    if begins_with(t, "#META"@) {
        assert(t.take(5)[0] == t[0]);
    }
    if begins_with(t, "#CTE_"@) {
        assert(t.take(5)[0] == t[0]);
    }
    crate::types::factor::Factor::lemma_text_roundtrip(f);
}

/// Factors whose text reads back as themselves: metadata and factors that read back.
pub open spec fn factors_read_back(w: Factors<FactorTexts>) -> bool {
    &&& forall|i: int|
        0 <= i < w.wmeta@.len() ==> crate::components::meta_reads_back(#[trigger] w.wmeta@[i])
    &&& forall|i: int| 0 <= i < w.wdata@.len() ==> factor_reads_back(#[trigger] w.wdata@[i])
}

/// Reading the text of factors that read back gives them back: their metadata and their
/// factors, in order.
pub proof fn lemma_factors_text_roundtrip(w: Factors<FactorTexts>)
    requires
        factors_read_back(w),
    ensures
        factors_error(w.spec_text()) is None,
        factors_read(w, w.spec_text()),
{
    reveal_strlit("\n");
    let mt = w.wmeta@.map_values(|m: Meta| m.spec_text());
    let ft = w.wdata@.map_values(|f: Factor<FactorTexts>| factor_text(f));
    assert(w.wdata@.map_values(
        |f: Factor<FactorTexts>|
            crate::record::record_text(crate::types::factor::factor_fields(f), f.comment@),
    ) =~= ft);
    let jm = join(mt, "\n"@);
    let jd = join(ft, "\n"@);
    let text = w.spec_text();
    assert("\n"@ =~= seq!['\n']);
    assert(text =~= jm + seq!['\n'] + jd);
    assert forall|i: int| 0 <= i < mt.len() implies !(#[trigger] mt[i]).contains('\n') by {
        crate::components::lemma_meta_line(w.wmeta@[i]);
    }
    assert forall|i: int| 0 <= i < ft.len() implies ({
        let t = #[trigger] ft[i];
        &&& !t.contains('\n')
        &&& t.len() > 0
        &&& trim(t) == t
        &&& is_data_line(t)
        &&& !is_meta_line(t)
        &&& factor_error(t) is None
        &&& factor_read(w.wdata@[i], t)
    }) by {
        lemma_factor_line(w.wdata@[i]);
    }
    crate::record::lemma_split_concat(jm, jd, '\n');
    crate::record::lemma_split_join_char(mt, '\n');
    crate::record::lemma_split_join_char(ft, '\n');
    let a0: Seq<Seq<char>> = if mt.len() == 0 {
        seq![Seq::<char>::empty()]
    } else {
        mt
    };
    let b0: Seq<Seq<char>> = if ft.len() == 0 {
        seq![Seq::<char>::empty()]
    } else {
        ft
    };
    assert(crate::text::split_on(text, '\n') == a0 + b0);
    let r = a0 + b0;
    if ft.len() == 0 {
        assert(r.last() == Seq::<char>::empty());
        assert(r.drop_last() =~= a0);
        assert(a0 + ft =~= a0);
    } else {
        assert(r.last() == ft.last());
        assert(ft[ft.len() - 1].len() > 0);
    }
    assert(lines_of(text) == a0 + ft);
    assert(trim_all(a0 + ft) =~= trim_all(a0) + trim_all(ft));
    assert(trim_all(ft) =~= ft);
    let a: Seq<Seq<char>> = if mt.len() == 0 {
        seq![Seq::<char>::empty()]
    } else {
        trim_all(mt)
    };
    if mt.len() == 0 {
        assert(trim_all(a0) =~= seq![trim(Seq::<char>::empty())]);
        assert(trim(Seq::<char>::empty()) =~= Seq::<char>::empty());
    }
    let ls = factor_text_lines(text);
    assert(ls =~= a + ft);
    assert forall|i: int| 0 <= i < a.len() implies !is_data_line(#[trigger] a[i]) by {
        if mt.len() > 0 {
            crate::components::lemma_meta_line(w.wmeta@[i]);
        }
    }
    // metadata
    crate::components::lemma_read_metas_append(a, ft);
    if mt.len() > 0 {
        crate::components::lemma_read_metas_all(w.wmeta@);
        assert(read_metas(a) == Ok::<_, Seq<char>>(metas_view(w.wmeta@)));
    } else {
        assert(a.drop_last() =~= Seq::<Seq<char>>::empty());
        assert(metas_view(w.wmeta@) =~= Seq::<(Seq<char>, Seq<char>)>::empty());
        crate::components::lemma_tag_initials();
        assert(!is_meta_line(a.last())) by {
            if begins_with(a.last(), "#META"@) {
            }
        }
        assert(read_metas(a.drop_last()) == Ok::<_, Seq<char>>(Seq::<(Seq<char>, Seq<char>)>::empty()));
        assert(read_metas(a) == Ok::<_, Seq<char>>(metas_view(w.wmeta@)));
    }
    assert(read_metas(ls) == Ok::<_, Seq<char>>(metas_view(w.wmeta@)));
    // every data line is a factor
    assert forall|j: int| 0 <= j < ls.len() implies !is_bad_factor_line(#[trigger] ls[j]) by {
        if j < a.len() {
            assert(ls[j] == a[j]);
        } else {
            assert(ls[j] == ft[j - a.len()]);
        }
    }
    lemma_first_bad_factor(ls, ls.len() as int);
    let pt = |t: Seq<char>| true;
    crate::components::lemma_tagged_append(a, ft, pt);
    crate::components::lemma_tagged_none(a, pt);
    crate::components::lemma_tagged_all(ft, pt);
    assert(factor_lines(ls) =~= ft);
    assert forall|k: int| 0 <= k < w.wdata@.len() implies factor_read(
        #[trigger] w.wdata@[k],
        factor_lines(ls)[k],
    ) by {
        assert(factor_lines(ls)[k] == ft[k]);
    }
}

/// Whether the list has a factor with this carrier, source, destination and step.
pub open spec fn has_factor<F>(s: Seq<FactorView<F>>, c: Carrier, so: Source, d: Dest, st: Step) -> bool {
    factor_pos(s, c, so, d, st) is Some
}

/// The values of the factor with this key (meaningful when the list has one).
pub open spec fn factor_values<F>(s: Seq<FactorView<F>>, c: Carrier, so: Source, d: Dest, st: Step) -> F {
    s[factor_pos(s, c, so, d, st)->0].values
}

/// Setting or making sure of a factor leaves the factor found for any other key where it was
/// and as it was.
proof fn lemma_frame<F>(
    s: Seq<FactorView<F>>,
    c: Carrier,
    so: Source,
    d: Dest,
    st: Step,
    v: F,
    comment: Seq<char>,
    c2: Carrier,
    so2: Source,
    d2: Dest,
    st2: Step,
)
    requires
        !(c == c2 && so == so2 && d == d2 && st == st2),
    ensures
        factor_pos(updated(s, c, so, d, st, v, comment), c2, so2, d2, st2) == factor_pos(s, c2, so2, d2, st2),
        factor_pos(ensured(s, c, so, d, st, v, comment), c2, so2, d2, st2) == factor_pos(s, c2, so2, d2, st2),
        factor_pos(s, c2, so2, d2, st2) matches Some(i) ==> updated(s, c, so, d, st, v, comment)[i] == s[i]
            && ensured(s, c, so, d, st, v, comment)[i] == s[i],
{
    lemma_factor_pos(s, c, so, d, st);
    lemma_factor_pos(s, c2, so2, d2, st2);
    let at = match factor_pos(s, c2, so2, d2, st2) {
        Some(i) => i,
        None => s.len() as int,
    };
    let u = updated(s, c, so, d, st, v, comment);
    let e = ensured(s, c, so, d, st, v, comment);
    match factor_pos(s, c, so, d, st) {
        Some(p) => {
            assert forall|j: int| 0 <= j < u.len() implies has_key(#[trigger] u[j], c2, so2, d2, st2) == has_key(
                s[j],
                c2,
                so2,
                d2,
                st2,
            ) by {
                if j == p {
                    assert(u[j].carrier == s[j].carrier && u[j].source == s[j].source && u[j].dest
                        == s[j].dest && u[j].step == s[j].step);
                }
            }
            if at < s.len() {
                assert(at != p);
            }
            lemma_factor_pos_at(u, c2, so2, d2, st2, at);
            assert(e == s);
        },
        None => {
            assert(!has_key(u[s.len() as int], c2, so2, d2, st2));
            if at == s.len() {
                lemma_factor_pos_at(u, c2, so2, d2, st2, u.len() as int);
            } else {
                lemma_factor_pos_at(u, c2, so2, d2, st2, at);
            }
            assert(e == u);
        },
    }
}

/// Setting or making sure of a factor never removes a key, and the list then has the key.
proof fn lemma_keeps_keys<F>(
    s: Seq<FactorView<F>>,
    c: Carrier,
    so: Source,
    d: Dest,
    st: Step,
    v: F,
    comment: Seq<char>,
    c2: Carrier,
    so2: Source,
    d2: Dest,
    st2: Step,
)
    ensures
        has_factor(updated(s, c, so, d, st, v, comment), c, so, d, st),
        has_factor(ensured(s, c, so, d, st, v, comment), c, so, d, st),
        has_factor(s, c2, so2, d2, st2) ==> has_factor(updated(s, c, so, d, st, v, comment), c2, so2, d2, st2),
        has_factor(s, c2, so2, d2, st2) ==> has_factor(ensured(s, c, so, d, st, v, comment), c2, so2, d2, st2),
{
    lemma_update_then_find(s, c, so, d, st, v, comment);
    lemma_ensure_keeps(s, c, so, d, st, v, comment);
    if !(c == c2 && so == so2 && d == d2 && st == st2) {
        lemma_frame(s, c, so, d, st, v, comment, c2, so2, d2, st2);
    }
}

/// Making sure of a factor leaves every factor that the list has where it was and as it was.
proof fn lemma_ensured_keeps<F>(
    s: Seq<FactorView<F>>,
    c: Carrier,
    so: Source,
    d: Dest,
    st: Step,
    v: F,
    comment: Seq<char>,
    c2: Carrier,
    so2: Source,
    d2: Dest,
    st2: Step,
)
    requires
        has_factor(s, c2, so2, d2, st2),
    ensures
        factor_pos(ensured(s, c, so, d, st, v, comment), c2, so2, d2, st2) == factor_pos(s, c2, so2, d2, st2),
        factor_values(ensured(s, c, so, d, st, v, comment), c2, so2, d2, st2) == factor_values(s, c2, so2, d2, st2),
{
    if c == c2 && so == so2 && d == d2 && st == st2 {
        assert(ensured(s, c, so, d, st, v, comment) == s);
    } else {
        lemma_frame(s, c, so, d, st, v, comment, c2, so2, d2, st2);
    }
}

/// Adding the factors of exported energy leaves every factor that the list has where it was
/// and as it was, and adds the factors of step B (and of step A for cogeneration).
proof fn lemma_export_factors<F>(
    s: Seq<FactorView<F>>,
    c: Carrier,
    so: Source,
    defaults: UserWF<F>,
    c2: Carrier,
    so2: Source,
    d2: Dest,
    st2: Step,
)
    requires
        with_export_factors(s, c, so, defaults) is Ok,
    ensures
        ({
            let r = with_export_factors(s, c, so, defaults)->Ok_0;
            &&& has_factor(s, c2, so2, d2, st2) ==> has_factor(r, c2, so2, d2, st2)
                && factor_values(r, c2, so2, d2, st2) == factor_values(s, c2, so2, d2, st2)
            &&& has_factor(r, c, so, Dest::A_RED, Step::B)
            &&& has_factor(r, c, so, Dest::A_NEPB, Step::B)
            &&& so == Source::COGEN ==> has_factor(r, Carrier::ELECTRICIDAD, Source::COGEN, Dest::A_RED, Step::A)
                && has_factor(r, Carrier::ELECTRICIDAD, Source::COGEN, Dest::A_NEPB, Step::A)
            &&& (so != Source::COGEN && has_factor(s, c, so, Dest::SUMINISTRO, Step::A)) ==> has_factor(
                r,
                c,
                so,
                Dest::A_RED,
                Step::A,
            ) && has_factor(r, c, so, Dest::A_NEPB, Step::A)
            &&& has_factor(s, c, Source::RED, Dest::SUMINISTRO, Step::A)
        }),
{
    let cm1 = "Recursos usados para producir la energía exportada a la red"@;
    let cm2 = "Recursos usados para producir la energía exportada a usos no EPB"@;
    let cm3 = "Recursos usados para producir la energía exportada a la red. Valor predefinido"@;
    let cm4 = "Recursos usados para producir la energía exportada a usos no EPB. Valor predefinido"@;
    let cm5 = "Recursos ahorrados a la red por la energía producida in situ y exportada a la red"@;
    let cm6 = "Recursos ahorrados a la red por la energía producida in situ y exportada a usos no EPB"@;
    let el = Carrier::ELECTRICIDAD;
    let co = Source::COGEN;
    let keep = has_factor(s, c2, so2, d2, st2);
    let s1 = if so != Source::COGEN {
        match factor_pos(s, c, so, Dest::SUMINISTRO, Step::A) {
            Some(i) => {
                let a = ensured(s, c, so, Dest::A_RED, Step::A, s[i].values, cm1);
                if keep {
                    lemma_ensured_keeps(s, c, so, Dest::A_RED, Step::A, s[i].values, cm1, c2, so2, d2, st2);
                    lemma_ensured_keeps(a, c, so, Dest::A_NEPB, Step::A, s[i].values, cm2, c2, so2, d2, st2);
                }
                lemma_keeps_keys(s, c, so, Dest::A_RED, Step::A, s[i].values, cm1, c, so, Dest::A_RED, Step::A);
                lemma_keeps_keys(a, c, so, Dest::A_NEPB, Step::A, s[i].values, cm2, c, so, Dest::A_RED, Step::A);
                lemma_frame(s, c, so, Dest::A_RED, Step::A, s[i].values, cm1, c, Source::RED, Dest::SUMINISTRO, Step::A);
                lemma_frame(a, c, so, Dest::A_NEPB, Step::A, s[i].values, cm2, c, Source::RED, Dest::SUMINISTRO, Step::A);
                ensured(a, c, so, Dest::A_NEPB, Step::A, s[i].values, cm2)
            },
            None => s,
        }
    } else {
        let a = ensured(s, el, co, Dest::A_RED, Step::A, defaults.cogen_to_grid, cm3);
        if keep {
            lemma_ensured_keeps(s, el, co, Dest::A_RED, Step::A, defaults.cogen_to_grid, cm3, c2, so2, d2, st2);
            lemma_ensured_keeps(a, el, co, Dest::A_NEPB, Step::A, defaults.cogen_to_nepb, cm4, c2, so2, d2, st2);
        }
        lemma_frame(s, el, co, Dest::A_RED, Step::A, defaults.cogen_to_grid, cm3, c, Source::RED, Dest::SUMINISTRO, Step::A);
        lemma_frame(a, el, co, Dest::A_NEPB, Step::A, defaults.cogen_to_nepb, cm4, c, Source::RED, Dest::SUMINISTRO, Step::A);
        lemma_keeps_keys(s, el, co, Dest::A_RED, Step::A, defaults.cogen_to_grid, cm3, el, co, Dest::A_RED, Step::A);
        lemma_keeps_keys(a, el, co, Dest::A_NEPB, Step::A, defaults.cogen_to_nepb, cm4, el, co, Dest::A_RED, Step::A);
        ensured(a, el, co, Dest::A_NEPB, Step::A, defaults.cogen_to_nepb, cm4)
    };
    let i = factor_pos(s1, c, Source::RED, Dest::SUMINISTRO, Step::A)->0;
    let b = ensured(s1, c, so, Dest::A_RED, Step::B, s1[i].values, cm5);
    if keep {
        lemma_ensured_keeps(s1, c, so, Dest::A_RED, Step::B, s1[i].values, cm5, c2, so2, d2, st2);
        lemma_ensured_keeps(b, c, so, Dest::A_NEPB, Step::B, s1[i].values, cm6, c2, so2, d2, st2);
    }
    lemma_keeps_keys(s1, c, so, Dest::A_RED, Step::B, s1[i].values, cm5, c, so, Dest::A_RED, Step::B);
    lemma_keeps_keys(b, c, so, Dest::A_NEPB, Step::B, s1[i].values, cm6, c, so, Dest::A_RED, Step::B);
    if so != Source::COGEN {
        lemma_keeps_keys(s1, c, so, Dest::A_RED, Step::B, s1[i].values, cm5, c, so, Dest::A_RED, Step::A);
        lemma_keeps_keys(b, c, so, Dest::A_NEPB, Step::B, s1[i].values, cm6, c, so, Dest::A_RED, Step::A);
        lemma_keeps_keys(s1, c, so, Dest::A_RED, Step::B, s1[i].values, cm5, c, so, Dest::A_NEPB, Step::A);
        lemma_keeps_keys(b, c, so, Dest::A_NEPB, Step::B, s1[i].values, cm6, c, so, Dest::A_NEPB, Step::A);
    }
    if so == Source::COGEN {
        lemma_keeps_keys(s1, c, so, Dest::A_RED, Step::B, s1[i].values, cm5, el, co, Dest::A_RED, Step::A);
        lemma_keeps_keys(b, c, so, Dest::A_NEPB, Step::B, s1[i].values, cm6, el, co, Dest::A_RED, Step::A);
        lemma_keeps_keys(s1, c, so, Dest::A_RED, Step::B, s1[i].values, cm5, el, co, Dest::A_NEPB, Step::A);
        lemma_keeps_keys(b, c, so, Dest::A_NEPB, Step::B, s1[i].values, cm6, el, co, Dest::A_NEPB, Step::A);
    }
}

/// Normalized factors hold everything that the energy balance needs:
/// - a grid supply factor for every carrier of the factors given;
/// - the supply factors of environment and solar thermal energy, on site and from the
///   (fictitious) grid, with the `renewable` values;
/// - a supply factor of cogenerated electricity with the `zero` values;
/// - the factors of step B of the energy exported (to the grid and to non EPB uses) by
///   electricity produced on site or by cogeneration, environment and solar thermal energy,
///   and those of step A of cogenerated electricity;
/// - the supply factors of the district networks RED1 and RED2.
pub proof fn lemma_normalized_complete<F>(
    s0: Seq<FactorView<F>>,
    defaults: UserWF<F>,
    renewable: F,
    zero: F,
)
    requires
        normalized(s0, defaults, renewable, zero) is Ok,
    ensures
        ({
            let s = normalized(s0, defaults, renewable, zero)->Ok_0;
            &&& forall|i: int|
                0 <= i < s0.len() ==> has_factor(s, (#[trigger] s0[i]).carrier, Source::RED, Dest::SUMINISTRO, Step::A)
            &&& has_factor(s, Carrier::EAMBIENTE, Source::INSITU, Dest::SUMINISTRO, Step::A)
            &&& factor_values(s, Carrier::EAMBIENTE, Source::INSITU, Dest::SUMINISTRO, Step::A) == renewable
            &&& has_factor(s, Carrier::EAMBIENTE, Source::RED, Dest::SUMINISTRO, Step::A)
            &&& factor_values(s, Carrier::EAMBIENTE, Source::RED, Dest::SUMINISTRO, Step::A) == renewable
            &&& has_factor(s, Carrier::TERMOSOLAR, Source::INSITU, Dest::SUMINISTRO, Step::A)
            &&& factor_values(s, Carrier::TERMOSOLAR, Source::INSITU, Dest::SUMINISTRO, Step::A) == renewable
            &&& has_factor(s, Carrier::TERMOSOLAR, Source::RED, Dest::SUMINISTRO, Step::A)
            &&& factor_values(s, Carrier::TERMOSOLAR, Source::RED, Dest::SUMINISTRO, Step::A) == renewable
            &&& has_factor(s, Carrier::ELECTRICIDAD, Source::COGEN, Dest::SUMINISTRO, Step::A)
            &&& factor_values(s, Carrier::ELECTRICIDAD, Source::COGEN, Dest::SUMINISTRO, Step::A) == zero
            &&& has_factor(s, Carrier::ELECTRICIDAD, Source::INSITU, Dest::A_RED, Step::B)
            &&& has_factor(s, Carrier::ELECTRICIDAD, Source::INSITU, Dest::A_NEPB, Step::B)
            &&& has_factor(s, Carrier::ELECTRICIDAD, Source::COGEN, Dest::A_RED, Step::A)
            &&& has_factor(s, Carrier::ELECTRICIDAD, Source::COGEN, Dest::A_NEPB, Step::A)
            &&& has_factor(s, Carrier::ELECTRICIDAD, Source::COGEN, Dest::A_RED, Step::B)
            &&& has_factor(s, Carrier::ELECTRICIDAD, Source::COGEN, Dest::A_NEPB, Step::B)
            &&& has_factor(s, Carrier::EAMBIENTE, Source::INSITU, Dest::A_RED, Step::B)
            &&& has_factor(s, Carrier::EAMBIENTE, Source::INSITU, Dest::A_NEPB, Step::B)
            &&& has_factor(s, Carrier::TERMOSOLAR, Source::INSITU, Dest::A_RED, Step::B)
            &&& has_factor(s, Carrier::TERMOSOLAR, Source::INSITU, Dest::A_NEPB, Step::B)
            &&& has_factor(s, Carrier::RED1, Source::RED, Dest::SUMINISTRO, Step::A)
            &&& has_factor(s, Carrier::RED2, Source::RED, Dest::SUMINISTRO, Step::A)
        }),
{
    lemma_normalized_supply(s0, defaults, renewable, zero, Carrier::EAMBIENTE, Source::INSITU);
    lemma_normalized_supply(s0, defaults, renewable, zero, Carrier::EAMBIENTE, Source::RED);
    lemma_normalized_supply(s0, defaults, renewable, zero, Carrier::TERMOSOLAR, Source::INSITU);
    lemma_normalized_supply(s0, defaults, renewable, zero, Carrier::TERMOSOLAR, Source::RED);
    lemma_normalized_supply(s0, defaults, renewable, zero, Carrier::ELECTRICIDAD, Source::COGEN);
    let s = normalized(s0, defaults, renewable, zero)->Ok_0;
    assert forall|i: int|
        0 <= i < s0.len() implies has_factor(s, (#[trigger] s0[i]).carrier, Source::RED, Dest::SUMINISTRO, Step::A) by {
        lemma_normalized_keeps(s0, defaults, renewable, zero, s0[i].carrier, Source::RED, Dest::SUMINISTRO, Step::A);
    }
    lemma_normalized_exports(s0, defaults, renewable, zero);
}

/// The steps of normalizing after the on site factors: the cogeneration supply factor, the
/// export factors and the district networks.
spec fn normalized_tail<F>(s5: Seq<FactorView<F>>, defaults: UserWF<F>, zero: F) -> Seq<Seq<FactorView<F>>> {
    let s6 = updated(
        s5,
        Carrier::ELECTRICIDAD,
        Source::COGEN,
        Dest::SUMINISTRO,
        Step::A,
        zero,
        "Factor de paso generado (el impacto de la cogeneración se tiene en cuenta en el vector de suministro)"@,
    );
    let s7 = with_export_factors(s6, Carrier::ELECTRICIDAD, Source::INSITU, defaults)->Ok_0;
    let s8 = with_export_factors(s7, Carrier::ELECTRICIDAD, Source::COGEN, defaults)->Ok_0;
    let s9 = with_export_factors(s8, Carrier::EAMBIENTE, Source::INSITU, defaults)->Ok_0;
    let s10 = with_export_factors(s9, Carrier::TERMOSOLAR, Source::INSITU, defaults)->Ok_0;
    let s11 = ensured(
        s10,
        Carrier::RED1,
        Source::RED,
        Dest::SUMINISTRO,
        Step::A,
        defaults.red1,
        "Recursos usados para suministrar energía de la red de distrito 1 (definible por el usuario)"@,
    );
    seq![s5, s6, s7, s8, s9, s10, s11]
}

/// A factor that the list has after the cogeneration supply step stays to the end as it
/// was.
proof fn lemma_normalized_tail<F>(
    s0: Seq<FactorView<F>>,
    defaults: UserWF<F>,
    renewable: F,
    zero: F,
    c2: Carrier,
    so2: Source,
    d2: Dest,
    st2: Step,
)
    requires
        normalized(s0, defaults, renewable, zero) is Ok,
    ensures
        ({
            let s5 = with_onsite_factors(s0, renewable);
            let s = normalized(s0, defaults, renewable, zero)->Ok_0;
            let t = normalized_tail(s5, defaults, zero);
            &&& s == ensured(
                t[6],
                Carrier::RED2,
                Source::RED,
                Dest::SUMINISTRO,
                Step::A,
                defaults.red2,
                "Recursos usados para suministrar energía de la red de distrito 2 (definible por el usuario)"@,
            )
            &&& has_factor(t[1], c2, so2, d2, st2) ==> has_factor(s, c2, so2, d2, st2)
                && factor_values(s, c2, so2, d2, st2) == factor_values(t[1], c2, so2, d2, st2)
        }),
{
    let s5 = with_onsite_factors(s0, renewable);
    let t = normalized_tail(s5, defaults, zero);
    let cr1 = "Recursos usados para suministrar energía de la red de distrito 1 (definible por el usuario)"@;
    let cr2 = "Recursos usados para suministrar energía de la red de distrito 2 (definible por el usuario)"@;
    lemma_export_factors(t[1], Carrier::ELECTRICIDAD, Source::INSITU, defaults, c2, so2, d2, st2);
    lemma_export_factors(t[2], Carrier::ELECTRICIDAD, Source::COGEN, defaults, c2, so2, d2, st2);
    lemma_export_factors(t[3], Carrier::EAMBIENTE, Source::INSITU, defaults, c2, so2, d2, st2);
    lemma_export_factors(t[4], Carrier::TERMOSOLAR, Source::INSITU, defaults, c2, so2, d2, st2);
    if has_factor(t[1], c2, so2, d2, st2) {
        lemma_ensured_keeps(t[5], Carrier::RED1, Source::RED, Dest::SUMINISTRO, Step::A, defaults.red1, cr1, c2, so2, d2, st2);
        lemma_ensured_keeps(t[6], Carrier::RED2, Source::RED, Dest::SUMINISTRO, Step::A, defaults.red2, cr2, c2, so2, d2, st2);
    }
}

/// A key that the factors have after the cogeneration supply step stays to the end.
proof fn lemma_normalized_keeps<F>(
    s0: Seq<FactorView<F>>,
    defaults: UserWF<F>,
    renewable: F,
    zero: F,
    c2: Carrier,
    so2: Source,
    d2: Dest,
    st2: Step,
)
    requires
        normalized(s0, defaults, renewable, zero) is Ok,
        has_factor(with_onsite_factors(s0, renewable), c2, so2, d2, st2),
    ensures
        has_factor(normalized(s0, defaults, renewable, zero)->Ok_0, c2, so2, d2, st2),
{
    let s5 = with_onsite_factors(s0, renewable);
    let t = normalized_tail(s5, defaults, zero);
    lemma_keeps_keys(
        s5,
        Carrier::ELECTRICIDAD,
        Source::COGEN,
        Dest::SUMINISTRO,
        Step::A,
        zero,
        "Factor de paso generado (el impacto de la cogeneración se tiene en cuenta en el vector de suministro)"@,
        c2,
        so2,
        d2,
        st2,
    );
    lemma_normalized_tail(s0, defaults, renewable, zero, c2, so2, d2, st2);
}

/// The supply factors that normalizing sets keep their values to the end.
proof fn lemma_normalized_supply<F>(
    s0: Seq<FactorView<F>>,
    defaults: UserWF<F>,
    renewable: F,
    zero: F,
    c2: Carrier,
    so2: Source,
)
    requires
        normalized(s0, defaults, renewable, zero) is Ok,
        (c2 == Carrier::EAMBIENTE || c2 == Carrier::TERMOSOLAR) && (so2 == Source::INSITU || so2 == Source::RED)
            || (c2 == Carrier::ELECTRICIDAD && so2 == Source::COGEN) || (c2 == Carrier::ELECTRICIDAD && so2
            == Source::INSITU && exists|i: int| 0 <= i < s0.len() && (#[trigger] s0[i]).carrier == Carrier::ELECTRICIDAD),
    ensures
        ({
            let s = normalized(s0, defaults, renewable, zero)->Ok_0;
            let t1 = normalized_tail(with_onsite_factors(s0, renewable), defaults, zero)[1];
            &&& has_factor(t1, c2, so2, Dest::SUMINISTRO, Step::A)
            &&& has_factor(s, c2, so2, Dest::SUMINISTRO, Step::A)
            &&& factor_values(s, c2, so2, Dest::SUMINISTRO, Step::A) == if so2 == Source::COGEN {
                zero
            } else {
                renewable
            }
        }),
{
    let d = Dest::SUMINISTRO;
    let a = Step::A;
    let ca = "Recursos usados para obtener energía ambiente"@;
    let cb = "Recursos usados para obtener energía ambiente (red ficticia)"@;
    let cc = "Recursos usados para obtener energía solar térmica"@;
    let cd = "Recursos usados para obtener energía solar térmica (red ficticia)"@;
    let ce = "Recursos usados para generar electricidad in situ"@;
    let cg = "Factor de paso generado (el impacto de la cogeneración se tiene en cuenta en el vector de suministro)"@;
    let s1 = updated(s0, Carrier::EAMBIENTE, Source::INSITU, d, a, renewable, ca);
    let s2 = updated(s1, Carrier::EAMBIENTE, Source::RED, d, a, renewable, cb);
    let s3 = updated(s2, Carrier::TERMOSOLAR, Source::INSITU, d, a, renewable, cc);
    let s4 = updated(s3, Carrier::TERMOSOLAR, Source::RED, d, a, renewable, cd);
    let s5 = with_onsite_factors(s0, renewable);
    let s6 = updated(s5, Carrier::ELECTRICIDAD, Source::COGEN, d, a, zero, cg);
    // The on site steps
    lemma_update_then_find(s0, Carrier::EAMBIENTE, Source::INSITU, d, a, renewable, ca);
    lemma_update_then_find(s1, Carrier::EAMBIENTE, Source::RED, d, a, renewable, cb);
    lemma_update_then_find(s2, Carrier::TERMOSOLAR, Source::INSITU, d, a, renewable, cc);
    lemma_update_then_find(s3, Carrier::TERMOSOLAR, Source::RED, d, a, renewable, cd);
    if !(c2 == Carrier::EAMBIENTE && so2 == Source::INSITU) {
        lemma_frame(s0, Carrier::EAMBIENTE, Source::INSITU, d, a, renewable, ca, c2, so2, d, a);
    }
    if !(c2 == Carrier::EAMBIENTE && so2 == Source::RED) {
        lemma_frame(s1, Carrier::EAMBIENTE, Source::RED, d, a, renewable, cb, c2, so2, d, a);
    }
    if !(c2 == Carrier::TERMOSOLAR && so2 == Source::INSITU) {
        lemma_frame(s2, Carrier::TERMOSOLAR, Source::INSITU, d, a, renewable, cc, c2, so2, d, a);
    }
    if !(c2 == Carrier::TERMOSOLAR && so2 == Source::RED) {
        lemma_frame(s3, Carrier::TERMOSOLAR, Source::RED, d, a, renewable, cd, c2, so2, d, a);
    }
    if !(c2 == Carrier::ELECTRICIDAD && so2 == Source::INSITU) {
        lemma_frame(s4, Carrier::ELECTRICIDAD, Source::INSITU, d, a, renewable, ce, c2, so2, d, a);
    } else {
        lemma_update_then_find(s4, Carrier::ELECTRICIDAD, Source::INSITU, d, a, renewable, ce);
    }
    // The cogeneration supply step
    lemma_update_then_find(s5, Carrier::ELECTRICIDAD, Source::COGEN, d, a, zero, cg);
    if !(c2 == Carrier::ELECTRICIDAD && so2 == Source::COGEN) {
        lemma_frame(s5, Carrier::ELECTRICIDAD, Source::COGEN, d, a, zero, cg, c2, so2, d, a);
    }
    assert(normalized_tail(s5, defaults, zero)[1] == s6);
    lemma_normalized_tail(s0, defaults, renewable, zero, c2, so2, d, a);
}

/// A key that the factors have at a step of the tail of normalizing stays to the end.
proof fn lemma_tail_from<F>(
    s0: Seq<FactorView<F>>,
    defaults: UserWF<F>,
    renewable: F,
    zero: F,
    k: int,
    c2: Carrier,
    so2: Source,
    d2: Dest,
    st2: Step,
)
    requires
        normalized(s0, defaults, renewable, zero) is Ok,
        1 <= k <= 6,
        has_factor(normalized_tail(with_onsite_factors(s0, renewable), defaults, zero)[k], c2, so2, d2, st2),
    ensures
        has_factor(normalized(s0, defaults, renewable, zero)->Ok_0, c2, so2, d2, st2),
    decreases 6 - k,
{
    let t = normalized_tail(with_onsite_factors(s0, renewable), defaults, zero);
    lemma_normalized_tail(s0, defaults, renewable, zero, c2, so2, d2, st2);
    let cr1 = "Recursos usados para suministrar energía de la red de distrito 1 (definible por el usuario)"@;
    let cr2 = "Recursos usados para suministrar energía de la red de distrito 2 (definible por el usuario)"@;
    if k == 6 {
        lemma_keeps_keys(t[6], Carrier::RED2, Source::RED, Dest::SUMINISTRO, Step::A, defaults.red2, cr2, c2, so2, d2, st2);
    } else {
        if k == 5 {
            lemma_keeps_keys(t[5], Carrier::RED1, Source::RED, Dest::SUMINISTRO, Step::A, defaults.red1, cr1, c2, so2, d2, st2);
        } else if k == 4 {
            lemma_export_factors(t[4], Carrier::TERMOSOLAR, Source::INSITU, defaults, c2, so2, d2, st2);
        } else if k == 3 {
            lemma_export_factors(t[3], Carrier::EAMBIENTE, Source::INSITU, defaults, c2, so2, d2, st2);
        } else if k == 2 {
            lemma_export_factors(t[2], Carrier::ELECTRICIDAD, Source::COGEN, defaults, c2, so2, d2, st2);
        } else {
            lemma_export_factors(t[1], Carrier::ELECTRICIDAD, Source::INSITU, defaults, c2, so2, d2, st2);
        }
        lemma_tail_from(s0, defaults, renewable, zero, k + 1, c2, so2, d2, st2);
    }
}

/// The factors of exported energy that normalizing adds stay to the end.
proof fn lemma_normalized_exports<F>(s0: Seq<FactorView<F>>, defaults: UserWF<F>, renewable: F, zero: F)
    requires
        normalized(s0, defaults, renewable, zero) is Ok,
    ensures
        ({
            let s = normalized(s0, defaults, renewable, zero)->Ok_0;
            &&& has_factor(s, Carrier::ELECTRICIDAD, Source::INSITU, Dest::A_RED, Step::B)
            &&& has_factor(s, Carrier::ELECTRICIDAD, Source::INSITU, Dest::A_NEPB, Step::B)
            &&& has_factor(s, Carrier::ELECTRICIDAD, Source::COGEN, Dest::A_RED, Step::A)
            &&& has_factor(s, Carrier::ELECTRICIDAD, Source::COGEN, Dest::A_NEPB, Step::A)
            &&& has_factor(s, Carrier::ELECTRICIDAD, Source::COGEN, Dest::A_RED, Step::B)
            &&& has_factor(s, Carrier::ELECTRICIDAD, Source::COGEN, Dest::A_NEPB, Step::B)
            &&& has_factor(s, Carrier::EAMBIENTE, Source::INSITU, Dest::A_RED, Step::B)
            &&& has_factor(s, Carrier::EAMBIENTE, Source::INSITU, Dest::A_NEPB, Step::B)
            &&& has_factor(s, Carrier::TERMOSOLAR, Source::INSITU, Dest::A_RED, Step::B)
            &&& has_factor(s, Carrier::TERMOSOLAR, Source::INSITU, Dest::A_NEPB, Step::B)
            &&& has_factor(s, Carrier::RED1, Source::RED, Dest::SUMINISTRO, Step::A)
            &&& has_factor(s, Carrier::RED2, Source::RED, Dest::SUMINISTRO, Step::A)
        }),
{
    let t = normalized_tail(with_onsite_factors(s0, renewable), defaults, zero);
    let el = Carrier::ELECTRICIDAD;
    let (ins, cog, red) = (Source::INSITU, Source::COGEN, Source::RED);
    let (ared, anepb, sum) = (Dest::A_RED, Dest::A_NEPB, Dest::SUMINISTRO);
    let (a, b) = (Step::A, Step::B);
    // Step B of electricity produced on site
    lemma_export_factors(t[1], el, ins, defaults, el, ins, ared, b);
    lemma_tail_from(s0, defaults, renewable, zero, 2, el, ins, ared, b);
    lemma_export_factors(t[1], el, ins, defaults, el, ins, anepb, b);
    lemma_tail_from(s0, defaults, renewable, zero, 2, el, ins, anepb, b);
    // Cogenerated electricity
    lemma_export_factors(t[2], el, cog, defaults, el, cog, ared, a);
    lemma_tail_from(s0, defaults, renewable, zero, 3, el, cog, ared, a);
    lemma_export_factors(t[2], el, cog, defaults, el, cog, anepb, a);
    lemma_tail_from(s0, defaults, renewable, zero, 3, el, cog, anepb, a);
    lemma_export_factors(t[2], el, cog, defaults, el, cog, ared, b);
    lemma_tail_from(s0, defaults, renewable, zero, 3, el, cog, ared, b);
    lemma_export_factors(t[2], el, cog, defaults, el, cog, anepb, b);
    lemma_tail_from(s0, defaults, renewable, zero, 3, el, cog, anepb, b);
    // Environment and solar thermal energy
    lemma_export_factors(t[3], Carrier::EAMBIENTE, ins, defaults, Carrier::EAMBIENTE, ins, ared, b);
    lemma_tail_from(s0, defaults, renewable, zero, 4, Carrier::EAMBIENTE, ins, ared, b);
    lemma_export_factors(t[3], Carrier::EAMBIENTE, ins, defaults, Carrier::EAMBIENTE, ins, anepb, b);
    lemma_tail_from(s0, defaults, renewable, zero, 4, Carrier::EAMBIENTE, ins, anepb, b);
    lemma_export_factors(t[4], Carrier::TERMOSOLAR, ins, defaults, Carrier::TERMOSOLAR, ins, ared, b);
    lemma_tail_from(s0, defaults, renewable, zero, 5, Carrier::TERMOSOLAR, ins, ared, b);
    lemma_export_factors(t[4], Carrier::TERMOSOLAR, ins, defaults, Carrier::TERMOSOLAR, ins, anepb, b);
    lemma_tail_from(s0, defaults, renewable, zero, 5, Carrier::TERMOSOLAR, ins, anepb, b);
    // District networks
    let cr1 = "Recursos usados para suministrar energía de la red de distrito 1 (definible por el usuario)"@;
    let cr2 = "Recursos usados para suministrar energía de la red de distrito 2 (definible por el usuario)"@;
    lemma_keeps_keys(t[5], Carrier::RED1, red, sum, a, defaults.red1, cr1, Carrier::RED1, red, sum, a);
    lemma_tail_from(s0, defaults, renewable, zero, 6, Carrier::RED1, red, sum, a);
    lemma_keeps_keys(t[6], Carrier::RED2, red, sum, a, defaults.red2, cr2, Carrier::RED2, red, sum, a);
    lemma_normalized_tail(s0, defaults, renewable, zero, Carrier::RED2, red, sum, a);
}

/// A factor that is none of those that the on site step sets stays where it was and as it
/// was.
proof fn lemma_onsite_frame<F>(s0: Seq<FactorView<F>>, renewable: F, c2: Carrier, so2: Source, d2: Dest, st2: Step)
    requires
        !(d2 == Dest::SUMINISTRO && st2 == Step::A && ((c2 == Carrier::EAMBIENTE || c2 == Carrier::TERMOSOLAR)
            && (so2 == Source::INSITU || so2 == Source::RED) || c2 == Carrier::ELECTRICIDAD && so2
            == Source::INSITU)),
        has_factor(s0, c2, so2, d2, st2),
    ensures
        has_factor(with_onsite_factors(s0, renewable), c2, so2, d2, st2),
        factor_values(with_onsite_factors(s0, renewable), c2, so2, d2, st2) == factor_values(s0, c2, so2, d2, st2),
{
    let d = Dest::SUMINISTRO;
    let a = Step::A;
    let ca = "Recursos usados para obtener energía ambiente"@;
    let cb = "Recursos usados para obtener energía ambiente (red ficticia)"@;
    let cc = "Recursos usados para obtener energía solar térmica"@;
    let cd = "Recursos usados para obtener energía solar térmica (red ficticia)"@;
    let ce = "Recursos usados para generar electricidad in situ"@;
    let s1 = updated(s0, Carrier::EAMBIENTE, Source::INSITU, d, a, renewable, ca);
    let s2 = updated(s1, Carrier::EAMBIENTE, Source::RED, d, a, renewable, cb);
    let s3 = updated(s2, Carrier::TERMOSOLAR, Source::INSITU, d, a, renewable, cc);
    let s4 = updated(s3, Carrier::TERMOSOLAR, Source::RED, d, a, renewable, cd);
    lemma_frame(s0, Carrier::EAMBIENTE, Source::INSITU, d, a, renewable, ca, c2, so2, d2, st2);
    lemma_frame(s1, Carrier::EAMBIENTE, Source::RED, d, a, renewable, cb, c2, so2, d2, st2);
    lemma_frame(s2, Carrier::TERMOSOLAR, Source::INSITU, d, a, renewable, cc, c2, so2, d2, st2);
    lemma_frame(s3, Carrier::TERMOSOLAR, Source::RED, d, a, renewable, cd, c2, so2, d2, st2);
    lemma_frame(s4, Carrier::ELECTRICIDAD, Source::INSITU, d, a, renewable, ce, c2, so2, d2, st2);
}

/// A factor given by the user stays to the end of normalizing as the user gave it.
proof fn lemma_user_factor_kept<F>(
    u: Seq<FactorView<F>>,
    defaults: UserWF<F>,
    renewable: F,
    zero: F,
    c2: Carrier,
    so2: Source,
    d2: Dest,
    st2: Step,
)
    requires
        normalized(u, defaults, renewable, zero) is Ok,
        has_factor(u, c2, so2, d2, st2),
        (c2 == Carrier::RED1 || c2 == Carrier::RED2) || (c2 == Carrier::ELECTRICIDAD && so2 == Source::COGEN
            && d2 != Dest::SUMINISTRO),
    ensures
        has_factor(normalized(u, defaults, renewable, zero)->Ok_0, c2, so2, d2, st2),
        factor_values(normalized(u, defaults, renewable, zero)->Ok_0, c2, so2, d2, st2) == factor_values(
            u,
            c2,
            so2,
            d2,
            st2,
        ),
{
    let s5 = with_onsite_factors(u, renewable);
    lemma_onsite_frame(u, renewable, c2, so2, d2, st2);
    let cg = "Factor de paso generado (el impacto de la cogeneración se tiene en cuenta en el vector de suministro)"@;
    lemma_frame(s5, Carrier::ELECTRICIDAD, Source::COGEN, Dest::SUMINISTRO, Step::A, zero, cg, c2, so2, d2, st2);
    lemma_normalized_tail(u, defaults, renewable, zero, c2, so2, d2, st2);
}

/// Adding the factors of exported energy of a carrier and source leaves the factor found
/// for a key of another carrier or source (other than cogenerated electricity, when the
/// source is cogeneration) where it was, or absent.
proof fn lemma_export_frame<F>(
    s: Seq<FactorView<F>>,
    c: Carrier,
    so: Source,
    defaults: UserWF<F>,
    c2: Carrier,
    so2: Source,
    d2: Dest,
    st2: Step,
)
    requires
        with_export_factors(s, c, so, defaults) is Ok,
        !(c2 == c && so2 == so),
        !(so == Source::COGEN && c2 == Carrier::ELECTRICIDAD && so2 == Source::COGEN),
    ensures
        factor_pos(with_export_factors(s, c, so, defaults)->Ok_0, c2, so2, d2, st2) == factor_pos(s, c2, so2, d2, st2),
{
    let cm1 = "Recursos usados para producir la energía exportada a la red"@;
    let cm2 = "Recursos usados para producir la energía exportada a usos no EPB"@;
    let cm3 = "Recursos usados para producir la energía exportada a la red. Valor predefinido"@;
    let cm4 = "Recursos usados para producir la energía exportada a usos no EPB. Valor predefinido"@;
    let cm5 = "Recursos ahorrados a la red por la energía producida in situ y exportada a la red"@;
    let cm6 = "Recursos ahorrados a la red por la energía producida in situ y exportada a usos no EPB"@;
    let el = Carrier::ELECTRICIDAD;
    let co = Source::COGEN;
    let s1 = if so != Source::COGEN {
        match factor_pos(s, c, so, Dest::SUMINISTRO, Step::A) {
            Some(i) => {
                let a = ensured(s, c, so, Dest::A_RED, Step::A, s[i].values, cm1);
                lemma_frame(s, c, so, Dest::A_RED, Step::A, s[i].values, cm1, c2, so2, d2, st2);
                lemma_frame(a, c, so, Dest::A_NEPB, Step::A, s[i].values, cm2, c2, so2, d2, st2);
                ensured(a, c, so, Dest::A_NEPB, Step::A, s[i].values, cm2)
            },
            None => s,
        }
    } else {
        let a = ensured(s, el, co, Dest::A_RED, Step::A, defaults.cogen_to_grid, cm3);
        lemma_frame(s, el, co, Dest::A_RED, Step::A, defaults.cogen_to_grid, cm3, c2, so2, d2, st2);
        lemma_frame(a, el, co, Dest::A_NEPB, Step::A, defaults.cogen_to_nepb, cm4, c2, so2, d2, st2);
        ensured(a, el, co, Dest::A_NEPB, Step::A, defaults.cogen_to_nepb, cm4)
    };
    let i = factor_pos(s1, c, Source::RED, Dest::SUMINISTRO, Step::A)->0;
    let b = ensured(s1, c, so, Dest::A_RED, Step::B, s1[i].values, cm5);
    lemma_frame(s1, c, so, Dest::A_RED, Step::B, s1[i].values, cm5, c2, so2, d2, st2);
    lemma_frame(b, c, so, Dest::A_NEPB, Step::B, s1[i].values, cm6, c2, so2, d2, st2);
}

/// The factors of step B that adding the factors of exported energy creates have the
/// values of the grid supply factor of the carrier.
proof fn lemma_export_values<F>(s: Seq<FactorView<F>>, c: Carrier, so: Source, defaults: UserWF<F>, d: Dest)
    requires
        with_export_factors(s, c, so, defaults) is Ok,
        !has_factor(s, c, so, d, Step::B),
        d == Dest::A_RED || d == Dest::A_NEPB,
        so != Source::RED,
    ensures
        ({
            let r = with_export_factors(s, c, so, defaults)->Ok_0;
            &&& has_factor(r, c, Source::RED, Dest::SUMINISTRO, Step::A)
            &&& has_factor(r, c, so, d, Step::B)
            &&& factor_values(r, c, so, d, Step::B) == factor_values(r, c, Source::RED, Dest::SUMINISTRO, Step::A)
        }),
{
    let cm1 = "Recursos usados para producir la energía exportada a la red"@;
    let cm2 = "Recursos usados para producir la energía exportada a usos no EPB"@;
    let cm3 = "Recursos usados para producir la energía exportada a la red. Valor predefinido"@;
    let cm4 = "Recursos usados para producir la energía exportada a usos no EPB. Valor predefinido"@;
    let cm5 = "Recursos ahorrados a la red por la energía producida in situ y exportada a la red"@;
    let cm6 = "Recursos ahorrados a la red por la energía producida in situ y exportada a usos no EPB"@;
    let el = Carrier::ELECTRICIDAD;
    let co = Source::COGEN;
    let red = Source::RED;
    let (sum, a, b) = (Dest::SUMINISTRO, Step::A, Step::B);
    let s1 = if so != Source::COGEN {
        match factor_pos(s, c, so, sum, a) {
            Some(i) => {
                let x = ensured(s, c, so, Dest::A_RED, a, s[i].values, cm1);
                lemma_frame(s, c, so, Dest::A_RED, a, s[i].values, cm1, c, so, d, b);
                lemma_frame(x, c, so, Dest::A_NEPB, a, s[i].values, cm2, c, so, d, b);
                ensured(x, c, so, Dest::A_NEPB, a, s[i].values, cm2)
            },
            None => s,
        }
    } else {
        let x = ensured(s, el, co, Dest::A_RED, a, defaults.cogen_to_grid, cm3);
        lemma_frame(s, el, co, Dest::A_RED, a, defaults.cogen_to_grid, cm3, c, so, d, b);
        lemma_frame(x, el, co, Dest::A_NEPB, a, defaults.cogen_to_nepb, cm4, c, so, d, b);
        ensured(x, el, co, Dest::A_NEPB, a, defaults.cogen_to_nepb, cm4)
    };
    let i = factor_pos(s1, c, red, sum, a)->0;
    let v = s1[i].values;
    let bb = ensured(s1, c, so, Dest::A_RED, b, v, cm5);
    let r = ensured(bb, c, so, Dest::A_NEPB, b, v, cm6);
    assert(r == with_export_factors(s, c, so, defaults)->Ok_0);
    lemma_frame(s1, c, so, Dest::A_RED, b, v, cm5, c, red, sum, a);
    lemma_frame(bb, c, so, Dest::A_NEPB, b, v, cm6, c, red, sum, a);
    lemma_ensure_keeps(s1, c, so, Dest::A_RED, b, v, cm5);
    lemma_ensure_keeps(bb, c, so, Dest::A_NEPB, b, v, cm6);
    if d == Dest::A_RED {
        lemma_frame(bb, c, so, Dest::A_NEPB, b, v, cm6, c, so, d, b);
    } else {
        lemma_frame(s1, c, so, Dest::A_RED, b, v, cm5, c, so, d, b);
    }
}

/// A factor that the list has after the export step `k` of normalizing stays to the end as
/// it was.
proof fn lemma_tail_values<F>(
    s0: Seq<FactorView<F>>,
    defaults: UserWF<F>,
    renewable: F,
    zero: F,
    k: int,
    c2: Carrier,
    so2: Source,
    d2: Dest,
    st2: Step,
)
    requires
        normalized(s0, defaults, renewable, zero) is Ok,
        1 <= k <= 6,
        has_factor(normalized_tail(with_onsite_factors(s0, renewable), defaults, zero)[k], c2, so2, d2, st2),
    ensures
        has_factor(normalized(s0, defaults, renewable, zero)->Ok_0, c2, so2, d2, st2),
        factor_values(normalized(s0, defaults, renewable, zero)->Ok_0, c2, so2, d2, st2) == factor_values(
            normalized_tail(with_onsite_factors(s0, renewable), defaults, zero)[k],
            c2,
            so2,
            d2,
            st2,
        ),
    decreases 6 - k,
{
    let t = normalized_tail(with_onsite_factors(s0, renewable), defaults, zero);
    lemma_normalized_tail(s0, defaults, renewable, zero, c2, so2, d2, st2);
    let cr1 = "Recursos usados para suministrar energía de la red de distrito 1 (definible por el usuario)"@;
    let cr2 = "Recursos usados para suministrar energía de la red de distrito 2 (definible por el usuario)"@;
    if k == 6 {
        lemma_ensured_keeps(t[6], Carrier::RED2, Source::RED, Dest::SUMINISTRO, Step::A, defaults.red2, cr2, c2, so2, d2, st2);
    } else {
        if k == 5 {
            lemma_ensured_keeps(t[5], Carrier::RED1, Source::RED, Dest::SUMINISTRO, Step::A, defaults.red1, cr1, c2, so2, d2, st2);
        } else if k == 4 {
            lemma_export_factors(t[4], Carrier::TERMOSOLAR, Source::INSITU, defaults, c2, so2, d2, st2);
        } else if k == 3 {
            lemma_export_factors(t[3], Carrier::EAMBIENTE, Source::INSITU, defaults, c2, so2, d2, st2);
        } else if k == 2 {
            lemma_export_factors(t[2], Carrier::ELECTRICIDAD, Source::COGEN, defaults, c2, so2, d2, st2);
        } else {
            lemma_export_factors(t[1], Carrier::ELECTRICIDAD, Source::INSITU, defaults, c2, so2, d2, st2);
        }
        lemma_tail_values(s0, defaults, renewable, zero, k + 1, c2, so2, d2, st2);
    }
}

/// Normalizing gives the factors of step B of exported energy (to the grid or to non EPB
/// uses) that it adds, for electricity produced on site or by cogeneration, environment and
/// solar thermal energy, the values of the grid supply factor of their carrier.
pub proof fn lemma_normalized_export_values<F>(
    s0: Seq<FactorView<F>>,
    defaults: UserWF<F>,
    renewable: F,
    zero: F,
    c: Carrier,
    so: Source,
    d: Dest,
)
    requires
        normalized(s0, defaults, renewable, zero) is Ok,
        (c == Carrier::ELECTRICIDAD && (so == Source::INSITU || so == Source::COGEN)) || ((c == Carrier::EAMBIENTE
            || c == Carrier::TERMOSOLAR) && so == Source::INSITU),
        d == Dest::A_RED || d == Dest::A_NEPB,
        !has_factor(s0, c, so, d, Step::B),
    ensures
        ({
            let s = normalized(s0, defaults, renewable, zero)->Ok_0;
            &&& has_factor(s, c, so, d, Step::B)
            &&& has_factor(s, c, Source::RED, Dest::SUMINISTRO, Step::A)
            &&& factor_values(s, c, so, d, Step::B) == factor_values(s, c, Source::RED, Dest::SUMINISTRO, Step::A)
        }),
{
    let (sum, a, b) = (Dest::SUMINISTRO, Step::A, Step::B);
    let (el, ea, ts) = (Carrier::ELECTRICIDAD, Carrier::EAMBIENTE, Carrier::TERMOSOLAR);
    let (ins, red, co) = (Source::INSITU, Source::RED, Source::COGEN);
    let ca = "Recursos usados para obtener energía ambiente"@;
    let cb = "Recursos usados para obtener energía ambiente (red ficticia)"@;
    let cc = "Recursos usados para obtener energía solar térmica"@;
    let cd = "Recursos usados para obtener energía solar térmica (red ficticia)"@;
    let ce = "Recursos usados para generar electricidad in situ"@;
    let s1 = updated(s0, ea, ins, sum, a, renewable, ca);
    let s2 = updated(s1, ea, red, sum, a, renewable, cb);
    let s3 = updated(s2, ts, ins, sum, a, renewable, cc);
    let s4 = updated(s3, ts, red, sum, a, renewable, cd);
    lemma_frame(s0, ea, ins, sum, a, renewable, ca, c, so, d, b);
    lemma_frame(s1, ea, red, sum, a, renewable, cb, c, so, d, b);
    lemma_frame(s2, ts, ins, sum, a, renewable, cc, c, so, d, b);
    lemma_frame(s3, ts, red, sum, a, renewable, cd, c, so, d, b);
    lemma_frame(s4, el, ins, sum, a, renewable, ce, c, so, d, b);
    let s5 = with_onsite_factors(s0, renewable);
    assert(!has_factor(s5, c, so, d, b));
    let t = normalized_tail(s5, defaults, zero);
    lemma_frame(
        s5,
        el,
        co,
        sum,
        a,
        zero,
        "Factor de paso generado (el impacto de la cogeneración se tiene en cuenta en el vector de suministro)"@,
        c,
        so,
        d,
        b,
    );
    assert(!has_factor(t[1], c, so, d, b));
    if c == el && so == ins {
        lemma_export_values(t[1], c, so, defaults, d);
        lemma_tail_values(s0, defaults, renewable, zero, 2, c, so, d, b);
        lemma_tail_values(s0, defaults, renewable, zero, 2, c, red, sum, a);
    } else if c == el && so == co {
        lemma_export_frame(t[1], el, ins, defaults, c, so, d, b);
        lemma_export_values(t[2], c, so, defaults, d);
        lemma_tail_values(s0, defaults, renewable, zero, 3, c, so, d, b);
        lemma_tail_values(s0, defaults, renewable, zero, 3, c, red, sum, a);
    } else if c == ea {
        lemma_export_frame(t[1], el, ins, defaults, c, so, d, b);
        lemma_export_frame(t[2], el, co, defaults, c, so, d, b);
        lemma_export_values(t[3], c, so, defaults, d);
        lemma_tail_values(s0, defaults, renewable, zero, 4, c, so, d, b);
        lemma_tail_values(s0, defaults, renewable, zero, 4, c, red, sum, a);
    } else {
        lemma_export_frame(t[1], el, ins, defaults, c, so, d, b);
        lemma_export_frame(t[2], el, co, defaults, c, so, d, b);
        lemma_export_frame(t[3], ea, ins, defaults, c, so, d, b);
        lemma_export_values(t[4], c, so, defaults, d);
        lemma_tail_values(s0, defaults, renewable, zero, 5, c, so, d, b);
        lemma_tail_values(s0, defaults, renewable, zero, 5, c, red, sum, a);
    }
}

/// Adding the factors of exported energy of a carrier succeeds exactly when the list has a
/// grid supply factor of the carrier.
proof fn lemma_export_ok<F>(s: Seq<FactorView<F>>, c: Carrier, so: Source, defaults: UserWF<F>)
    ensures
        (with_export_factors(s, c, so, defaults) is Ok) == has_factor(s, c, Source::RED, Dest::SUMINISTRO, Step::A),
{
    let cm1 = "Recursos usados para producir la energía exportada a la red"@;
    let cm2 = "Recursos usados para producir la energía exportada a usos no EPB"@;
    let cm3 = "Recursos usados para producir la energía exportada a la red. Valor predefinido"@;
    let cm4 = "Recursos usados para producir la energía exportada a usos no EPB. Valor predefinido"@;
    let el = Carrier::ELECTRICIDAD;
    let co = Source::COGEN;
    let (red, sum, a) = (Source::RED, Dest::SUMINISTRO, Step::A);
    if so != Source::COGEN {
        match factor_pos(s, c, so, sum, a) {
            Some(i) => {
                let x = ensured(s, c, so, Dest::A_RED, a, s[i].values, cm1);
                lemma_frame(s, c, so, Dest::A_RED, a, s[i].values, cm1, c, red, sum, a);
                lemma_frame(x, c, so, Dest::A_NEPB, a, s[i].values, cm2, c, red, sum, a);
            },
            None => {},
        }
    } else {
        let x = ensured(s, el, co, Dest::A_RED, a, defaults.cogen_to_grid, cm3);
        lemma_frame(s, el, co, Dest::A_RED, a, defaults.cogen_to_grid, cm3, c, red, sum, a);
        lemma_frame(x, el, co, Dest::A_NEPB, a, defaults.cogen_to_nepb, cm4, c, red, sum, a);
    }
}

/// Normalizing succeeds exactly when the factors given have a grid supply factor of
/// electricity and one of every other carrier that they name, but for environment and
/// solar thermal energy, whose grid supply factors it adds itself; otherwise it fails.
pub proof fn lemma_normalize_needs_grid_factors<F>(s0: Seq<FactorView<F>>, defaults: UserWF<F>, renewable: F, zero: F)
    ensures
        normalized(s0, defaults, renewable, zero) is Ok <==> {
            &&& has_factor(s0, Carrier::ELECTRICIDAD, Source::RED, Dest::SUMINISTRO, Step::A)
            &&& forall|i: int|
                0 <= i < s0.len() ==> (#[trigger] s0[i]).carrier == Carrier::EAMBIENTE || s0[i].carrier
                    == Carrier::TERMOSOLAR || has_factor(s0, s0[i].carrier, Source::RED, Dest::SUMINISTRO, Step::A)
        },
{
    let (sum, a) = (Dest::SUMINISTRO, Step::A);
    let (el, ea, ts) = (Carrier::ELECTRICIDAD, Carrier::EAMBIENTE, Carrier::TERMOSOLAR);
    let (ins, red, co) = (Source::INSITU, Source::RED, Source::COGEN);
    let ca = "Recursos usados para obtener energía ambiente"@;
    let cb = "Recursos usados para obtener energía ambiente (red ficticia)"@;
    let cc = "Recursos usados para obtener energía solar térmica"@;
    let cd = "Recursos usados para obtener energía solar térmica (red ficticia)"@;
    let ce = "Recursos usados para generar electricidad in situ"@;
    let cg = "Factor de paso generado (el impacto de la cogeneración se tiene en cuenta en el vector de suministro)"@;
    let s1 = updated(s0, ea, ins, sum, a, renewable, ca);
    let s2 = updated(s1, ea, red, sum, a, renewable, cb);
    let s3 = updated(s2, ts, ins, sum, a, renewable, cc);
    let s4 = updated(s3, ts, red, sum, a, renewable, cd);
    let s5 = with_onsite_factors(s0, renewable);
    // The grid supply factors of the carriers but environment and solar thermal energy
    // are those given
    assert forall|x: Carrier| x != ea && x != ts implies has_factor(s5, x, red, sum, a) == has_factor(
        s0,
        x,
        red,
        sum,
        a,
    ) by {
        lemma_frame(s0, ea, ins, sum, a, renewable, ca, x, red, sum, a);
        lemma_frame(s1, ea, red, sum, a, renewable, cb, x, red, sum, a);
        lemma_frame(s2, ts, ins, sum, a, renewable, cc, x, red, sum, a);
        lemma_frame(s3, ts, red, sum, a, renewable, cd, x, red, sum, a);
        lemma_frame(s4, el, ins, sum, a, renewable, ce, x, red, sum, a);
    }
    // and those of environment and solar thermal energy are there
    lemma_update_then_find(s1, ea, red, sum, a, renewable, cb);
    lemma_frame(s2, ts, ins, sum, a, renewable, cc, ea, red, sum, a);
    lemma_frame(s3, ts, red, sum, a, renewable, cd, ea, red, sum, a);
    lemma_frame(s4, el, ins, sum, a, renewable, ce, ea, red, sum, a);
    lemma_update_then_find(s3, ts, red, sum, a, renewable, cd);
    lemma_frame(s4, el, ins, sum, a, renewable, ce, ts, red, sum, a);
    assert(has_factor(s5, ea, red, sum, a));
    assert(has_factor(s5, ts, red, sum, a));
    assert(grid_factors_for_all(s0, s5) <==> forall|i: int|
        0 <= i < s0.len() ==> (#[trigger] s0[i]).carrier == ea || s0[i].carrier == ts || has_factor(
            s0,
            s0[i].carrier,
            red,
            sum,
            a,
        )) by {
        if grid_factors_for_all(s0, s5) {
            assert forall|i: int| 0 <= i < s0.len() implies (#[trigger] s0[i]).carrier == ea || s0[i].carrier == ts
                || has_factor(s0, s0[i].carrier, red, sum, a) by {
                assert(has_factor(s5, s0[i].carrier, red, sum, a));
            }
        } else {
            let i = choose|i: int|
                0 <= i < s0.len() && !(factor_pos(s5, (#[trigger] s0[i]).carrier, red, sum, a) is Some);
            assert(!has_factor(s5, s0[i].carrier, red, sum, a));
        }
    }
    if grid_factors_for_all(s0, s5) {
        let t = normalized_tail(s5, defaults, zero);
        let s6 = updated(s5, el, co, sum, a, zero, cg);
        assert(s6 == t[1]);
        lemma_frame(s5, el, co, sum, a, zero, cg, el, red, sum, a);
        lemma_frame(s5, el, co, sum, a, zero, cg, ea, red, sum, a);
        lemma_frame(s5, el, co, sum, a, zero, cg, ts, red, sum, a);
        lemma_export_ok(s6, el, ins, defaults);
        if has_factor(s0, el, red, sum, a) {
            let s7 = with_export_factors(s6, el, ins, defaults)->Ok_0;
            lemma_export_factors(s6, el, ins, defaults, el, red, sum, a);
            lemma_export_factors(s6, el, ins, defaults, ea, red, sum, a);
            lemma_export_factors(s6, el, ins, defaults, ts, red, sum, a);
            lemma_export_ok(s7, el, co, defaults);
            let s8 = with_export_factors(s7, el, co, defaults)->Ok_0;
            lemma_export_factors(s7, el, co, defaults, ea, red, sum, a);
            lemma_export_factors(s7, el, co, defaults, ts, red, sum, a);
            lemma_export_ok(s8, ea, ins, defaults);
            let s9 = with_export_factors(s8, ea, ins, defaults)->Ok_0;
            lemma_export_factors(s8, ea, ins, defaults, ts, red, sum, a);
            lemma_export_ok(s9, ts, ins, defaults);
        }
    }
}

/// The values that the user gives survive normalizing: the supply factors of the district
/// networks RED1 and RED2 and the factors of cogenerated electricity exported to the grid
/// and to non EPB uses (step A) keep the values that the user set.
pub proof fn lemma_user_values_kept<F>(
    s0: Seq<FactorView<F>>,
    user: UserWF<Option<F>>,
    defaults: UserWF<F>,
    renewable: F,
    zero: F,
)
    requires
        normalized(with_user_values(s0, user), defaults, renewable, zero) is Ok,
    ensures
        ({
            let s = normalized(with_user_values(s0, user), defaults, renewable, zero)->Ok_0;
            &&& user.red1 matches Some(v) ==> has_factor(s, Carrier::RED1, Source::RED, Dest::SUMINISTRO, Step::A)
                && factor_values(s, Carrier::RED1, Source::RED, Dest::SUMINISTRO, Step::A) == v
            &&& user.red2 matches Some(v) ==> has_factor(s, Carrier::RED2, Source::RED, Dest::SUMINISTRO, Step::A)
                && factor_values(s, Carrier::RED2, Source::RED, Dest::SUMINISTRO, Step::A) == v
            &&& user.cogen_to_grid matches Some(v) ==> has_factor(s, Carrier::ELECTRICIDAD, Source::COGEN, Dest::A_RED, Step::A)
                && factor_values(s, Carrier::ELECTRICIDAD, Source::COGEN, Dest::A_RED, Step::A) == v
            &&& user.cogen_to_nepb matches Some(v) ==> has_factor(s, Carrier::ELECTRICIDAD, Source::COGEN, Dest::A_NEPB, Step::A)
                && factor_values(s, Carrier::ELECTRICIDAD, Source::COGEN, Dest::A_NEPB, Step::A) == v
        }),
{
    let c = "Factor de usuario"@;
    let el = Carrier::ELECTRICIDAD;
    let co = Source::COGEN;
    let (red, sum, a) = (Source::RED, Dest::SUMINISTRO, Step::A);
    let s1 = match user.cogen_to_grid {
        Some(v) => updated(s0, el, co, Dest::A_RED, a, v, c),
        None => s0,
    };
    let s2 = match user.cogen_to_nepb {
        Some(v) => updated(s1, el, co, Dest::A_NEPB, a, v, c),
        None => s1,
    };
    let s3 = match user.red1 {
        Some(v) => updated(s2, Carrier::RED1, red, sum, a, v, c),
        None => s2,
    };
    let u = with_user_values(s0, user);
    // Each value is found after its own step and after the later ones
    if let Some(v) = user.cogen_to_grid {
        lemma_update_then_find(s0, el, co, Dest::A_RED, a, v, c);
        lemma_factor_pos(s1, el, co, Dest::A_RED, a);
        if let Some(w) = user.cogen_to_nepb {
            lemma_frame(s1, el, co, Dest::A_NEPB, a, w, c, el, co, Dest::A_RED, a);
        }
        if let Some(w) = user.red1 {
            lemma_frame(s2, Carrier::RED1, red, sum, a, w, c, el, co, Dest::A_RED, a);
        }
        if let Some(w) = user.red2 {
            lemma_frame(s3, Carrier::RED2, red, sum, a, w, c, el, co, Dest::A_RED, a);
        }
        lemma_user_factor_kept(u, defaults, renewable, zero, el, co, Dest::A_RED, a);
    }
    if let Some(v) = user.cogen_to_nepb {
        lemma_update_then_find(s1, el, co, Dest::A_NEPB, a, v, c);
        if let Some(w) = user.red1 {
            lemma_frame(s2, Carrier::RED1, red, sum, a, w, c, el, co, Dest::A_NEPB, a);
        }
        if let Some(w) = user.red2 {
            lemma_frame(s3, Carrier::RED2, red, sum, a, w, c, el, co, Dest::A_NEPB, a);
        }
        lemma_user_factor_kept(u, defaults, renewable, zero, el, co, Dest::A_NEPB, a);
    }
    if let Some(v) = user.red1 {
        lemma_update_then_find(s2, Carrier::RED1, red, sum, a, v, c);
        if let Some(w) = user.red2 {
            lemma_frame(s3, Carrier::RED2, red, sum, a, w, c, Carrier::RED1, red, sum, a);
        }
        lemma_user_factor_kept(u, defaults, renewable, zero, Carrier::RED1, red, sum, a);
    }
    if let Some(v) = user.red2 {
        lemma_update_then_find(s3, Carrier::RED2, red, sum, a, v, c);
        lemma_user_factor_kept(u, defaults, renewable, zero, Carrier::RED2, red, sum, a);
    }
}

/// The carriers that normalizing may add to the factors.
pub open spec fn normalizing_carrier(c: Carrier) -> bool {
    c == Carrier::EAMBIENTE || c == Carrier::TERMOSOLAR || c == Carrier::ELECTRICIDAD || c == Carrier::RED1
        || c == Carrier::RED2
}

/// Every factor of `s` has the carrier of the factor of `s0` at its position, or one that
/// normalizing adds.
pub open spec fn carriers_kept<F>(s0: Seq<FactorView<F>>, s: Seq<FactorView<F>>) -> bool {
    forall|j: int|
        0 <= j < s.len() ==> (j < s0.len() && (#[trigger] s[j]).carrier == s0[j].carrier) || normalizing_carrier(
            s[j].carrier,
        )
}

/// Setting or making sure of a factor of a carrier that normalizing adds keeps the carriers
/// of the list to those of `s0` and those that normalizing adds.
proof fn lemma_carriers_step<F>(
    s0: Seq<FactorView<F>>,
    s: Seq<FactorView<F>>,
    c: Carrier,
    so: Source,
    d: Dest,
    st: Step,
    v: F,
    comment: Seq<char>,
)
    requires
        carriers_kept(s0, s),
        normalizing_carrier(c),
    ensures
        carriers_kept(s0, updated(s, c, so, d, st, v, comment)),
        carriers_kept(s0, ensured(s, c, so, d, st, v, comment)),
{
    let u = updated(s, c, so, d, st, v, comment);
    let e = ensured(s, c, so, d, st, v, comment);
    lemma_factor_pos(s, c, so, d, st);
    assert forall|j: int| 0 <= j < u.len() implies (j < s0.len() && (#[trigger] u[j]).carrier
        == s0[j].carrier) || normalizing_carrier(u[j].carrier) by {
        match factor_pos(s, c, so, d, st) {
            Some(p) => {
                assert(u[j].carrier == s[j].carrier);
            },
            None => {
                if j < s.len() {
                    assert(u[j] == s[j]);
                } else {
                    assert(u[j].carrier == c);
                }
            },
        }
        if j < s.len() {
            assert((j < s0.len() && s[j].carrier == s0[j].carrier) || normalizing_carrier(s[j].carrier));
        }
    }
    assert forall|j: int| 0 <= j < e.len() implies (j < s0.len() && (#[trigger] e[j]).carrier
        == s0[j].carrier) || normalizing_carrier(e[j].carrier) by {
        if j < s.len() {
            assert(e[j] == s[j]);
            assert((j < s0.len() && s[j].carrier == s0[j].carrier) || normalizing_carrier(s[j].carrier));
        } else {
            assert(e[j].carrier == c);
        }
    }
}

/// Adding the factors of exported energy of a carrier that normalizing adds keeps the
/// carriers of the list to those of `s0` and those that normalizing adds.
proof fn lemma_export_carriers<F>(
    s0: Seq<FactorView<F>>,
    s: Seq<FactorView<F>>,
    c: Carrier,
    so: Source,
    defaults: UserWF<F>,
)
    requires
        carriers_kept(s0, s),
        normalizing_carrier(c),
        with_export_factors(s, c, so, defaults) is Ok,
    ensures
        carriers_kept(s0, with_export_factors(s, c, so, defaults)->Ok_0),
{
    let cm1 = "Recursos usados para producir la energía exportada a la red"@;
    let cm2 = "Recursos usados para producir la energía exportada a usos no EPB"@;
    let cm3 = "Recursos usados para producir la energía exportada a la red. Valor predefinido"@;
    let cm4 = "Recursos usados para producir la energía exportada a usos no EPB. Valor predefinido"@;
    let cm5 = "Recursos ahorrados a la red por la energía producida in situ y exportada a la red"@;
    let cm6 = "Recursos ahorrados a la red por la energía producida in situ y exportada a usos no EPB"@;
    let el = Carrier::ELECTRICIDAD;
    let co = Source::COGEN;
    let s1 = if so != Source::COGEN {
        match factor_pos(s, c, so, Dest::SUMINISTRO, Step::A) {
            Some(i) => {
                let a = ensured(s, c, so, Dest::A_RED, Step::A, s[i].values, cm1);
                lemma_carriers_step(s0, s, c, so, Dest::A_RED, Step::A, s[i].values, cm1);
                lemma_carriers_step(s0, a, c, so, Dest::A_NEPB, Step::A, s[i].values, cm2);
                ensured(a, c, so, Dest::A_NEPB, Step::A, s[i].values, cm2)
            },
            None => s,
        }
    } else {
        let a = ensured(s, el, co, Dest::A_RED, Step::A, defaults.cogen_to_grid, cm3);
        lemma_carriers_step(s0, s, el, co, Dest::A_RED, Step::A, defaults.cogen_to_grid, cm3);
        lemma_carriers_step(s0, a, el, co, Dest::A_NEPB, Step::A, defaults.cogen_to_nepb, cm4);
        ensured(a, el, co, Dest::A_NEPB, Step::A, defaults.cogen_to_nepb, cm4)
    };
    let i = factor_pos(s1, c, Source::RED, Dest::SUMINISTRO, Step::A)->0;
    let b = ensured(s1, c, so, Dest::A_RED, Step::B, s1[i].values, cm5);
    lemma_carriers_step(s0, s1, c, so, Dest::A_RED, Step::B, s1[i].values, cm5);
    lemma_carriers_step(s0, b, c, so, Dest::A_NEPB, Step::B, s1[i].values, cm6);
}

/// Normalized factors have, at each position, the carrier of the factors given at that
/// position, or one that normalizing adds.
proof fn lemma_normalized_carriers<F>(s0: Seq<FactorView<F>>, defaults: UserWF<F>, renewable: F, zero: F)
    requires
        normalized(s0, defaults, renewable, zero) is Ok,
    ensures
        carriers_kept(s0, normalized(s0, defaults, renewable, zero)->Ok_0),
{
    let d = Dest::SUMINISTRO;
    let a = Step::A;
    let ca = "Recursos usados para obtener energía ambiente"@;
    let cb = "Recursos usados para obtener energía ambiente (red ficticia)"@;
    let cc = "Recursos usados para obtener energía solar térmica"@;
    let cd = "Recursos usados para obtener energía solar térmica (red ficticia)"@;
    let ce = "Recursos usados para generar electricidad in situ"@;
    let cg = "Factor de paso generado (el impacto de la cogeneración se tiene en cuenta en el vector de suministro)"@;
    let cr1 = "Recursos usados para suministrar energía de la red de distrito 1 (definible por el usuario)"@;
    let cr2 = "Recursos usados para suministrar energía de la red de distrito 2 (definible por el usuario)"@;
    let s1 = updated(s0, Carrier::EAMBIENTE, Source::INSITU, d, a, renewable, ca);
    let s2 = updated(s1, Carrier::EAMBIENTE, Source::RED, d, a, renewable, cb);
    let s3 = updated(s2, Carrier::TERMOSOLAR, Source::INSITU, d, a, renewable, cc);
    let s4 = updated(s3, Carrier::TERMOSOLAR, Source::RED, d, a, renewable, cd);
    let s5 = with_onsite_factors(s0, renewable);
    assert(carriers_kept(s0, s0));
    lemma_carriers_step(s0, s0, Carrier::EAMBIENTE, Source::INSITU, d, a, renewable, ca);
    lemma_carriers_step(s0, s1, Carrier::EAMBIENTE, Source::RED, d, a, renewable, cb);
    lemma_carriers_step(s0, s2, Carrier::TERMOSOLAR, Source::INSITU, d, a, renewable, cc);
    lemma_carriers_step(s0, s3, Carrier::TERMOSOLAR, Source::RED, d, a, renewable, cd);
    lemma_carriers_step(s0, s4, Carrier::ELECTRICIDAD, Source::INSITU, d, a, renewable, ce);
    assert(carriers_kept(s0, s5));
    let t = normalized_tail(s5, defaults, zero);
    lemma_carriers_step(s0, s5, Carrier::ELECTRICIDAD, Source::COGEN, d, a, zero, cg);
    lemma_export_carriers(s0, t[1], Carrier::ELECTRICIDAD, Source::INSITU, defaults);
    lemma_export_carriers(s0, t[2], Carrier::ELECTRICIDAD, Source::COGEN, defaults);
    lemma_export_carriers(s0, t[3], Carrier::EAMBIENTE, Source::INSITU, defaults);
    lemma_export_carriers(s0, t[4], Carrier::TERMOSOLAR, Source::INSITU, defaults);
    lemma_carriers_step(s0, t[5], Carrier::RED1, Source::RED, d, a, defaults.red1, cr1);
    lemma_carriers_step(s0, t[6], Carrier::RED2, Source::RED, d, a, defaults.red2, cr2);
    lemma_normalized_tail(s0, defaults, renewable, zero, Carrier::RED1, Source::RED, d, a);
}

/// The on site step leaves where it is the factor of any other key.
proof fn lemma_onsite_pos<F>(s0: Seq<FactorView<F>>, renewable: F, c2: Carrier, so2: Source, d2: Dest, st2: Step)
    requires
        !(d2 == Dest::SUMINISTRO && st2 == Step::A && ((c2 == Carrier::EAMBIENTE || c2 == Carrier::TERMOSOLAR)
            && (so2 == Source::INSITU || so2 == Source::RED) || c2 == Carrier::ELECTRICIDAD && so2
            == Source::INSITU)),
    ensures
        factor_pos(with_onsite_factors(s0, renewable), c2, so2, d2, st2) == factor_pos(s0, c2, so2, d2, st2),
{
    let d = Dest::SUMINISTRO;
    let a = Step::A;
    let ca = "Recursos usados para obtener energía ambiente"@;
    let cb = "Recursos usados para obtener energía ambiente (red ficticia)"@;
    let cc = "Recursos usados para obtener energía solar térmica"@;
    let cd = "Recursos usados para obtener energía solar térmica (red ficticia)"@;
    let ce = "Recursos usados para generar electricidad in situ"@;
    let s1 = updated(s0, Carrier::EAMBIENTE, Source::INSITU, d, a, renewable, ca);
    let s2 = updated(s1, Carrier::EAMBIENTE, Source::RED, d, a, renewable, cb);
    let s3 = updated(s2, Carrier::TERMOSOLAR, Source::INSITU, d, a, renewable, cc);
    let s4 = updated(s3, Carrier::TERMOSOLAR, Source::RED, d, a, renewable, cd);
    lemma_frame(s0, Carrier::EAMBIENTE, Source::INSITU, d, a, renewable, ca, c2, so2, d2, st2);
    lemma_frame(s1, Carrier::EAMBIENTE, Source::RED, d, a, renewable, cb, c2, so2, d2, st2);
    lemma_frame(s2, Carrier::TERMOSOLAR, Source::INSITU, d, a, renewable, cc, c2, so2, d2, st2);
    lemma_frame(s3, Carrier::TERMOSOLAR, Source::RED, d, a, renewable, cd, c2, so2, d2, st2);
    lemma_frame(s4, Carrier::ELECTRICIDAD, Source::INSITU, d, a, renewable, ce, c2, so2, d2, st2);
}

/// A factor that the list has at a step of the tail of normalizing is there at every later
/// step.
proof fn lemma_tail_has<F>(
    s0: Seq<FactorView<F>>,
    defaults: UserWF<F>,
    renewable: F,
    zero: F,
    k: int,
    c2: Carrier,
    so2: Source,
    d2: Dest,
    st2: Step,
)
    requires
        normalized(s0, defaults, renewable, zero) is Ok,
        1 <= k <= 4,
        has_factor(normalized_tail(with_onsite_factors(s0, renewable), defaults, zero)[1], c2, so2, d2, st2),
    ensures
        has_factor(normalized_tail(with_onsite_factors(s0, renewable), defaults, zero)[k], c2, so2, d2, st2),
    decreases k,
{
    let t = normalized_tail(with_onsite_factors(s0, renewable), defaults, zero);
    if k > 1 {
        lemma_tail_has(s0, defaults, renewable, zero, k - 1, c2, so2, d2, st2);
        if k == 2 {
            lemma_export_factors(t[1], Carrier::ELECTRICIDAD, Source::INSITU, defaults, c2, so2, d2, st2);
        } else if k == 3 {
            lemma_export_factors(t[2], Carrier::ELECTRICIDAD, Source::COGEN, defaults, c2, so2, d2, st2);
        } else {
            lemma_export_factors(t[3], Carrier::EAMBIENTE, Source::INSITU, defaults, c2, so2, d2, st2);
        }
    }
}

/// Normalizing succeeds only on factors with a grid supply factor of electricity; the
/// normalized factors then have it, the on site supply factor of electricity with the
/// `renewable` values, and the factors of step A of the energy exported by the carriers
/// produced on site.
proof fn lemma_normalized_electricity<F>(s0: Seq<FactorView<F>>, defaults: UserWF<F>, renewable: F, zero: F)
    requires
        normalized(s0, defaults, renewable, zero) is Ok,
    ensures
        ({
            let s = normalized(s0, defaults, renewable, zero)->Ok_0;
            &&& has_factor(s0, Carrier::ELECTRICIDAD, Source::RED, Dest::SUMINISTRO, Step::A)
            &&& has_factor(s, Carrier::ELECTRICIDAD, Source::RED, Dest::SUMINISTRO, Step::A)
            &&& has_factor(s, Carrier::ELECTRICIDAD, Source::INSITU, Dest::SUMINISTRO, Step::A)
            &&& factor_values(s, Carrier::ELECTRICIDAD, Source::INSITU, Dest::SUMINISTRO, Step::A) == renewable
            &&& has_factor(s, Carrier::ELECTRICIDAD, Source::INSITU, Dest::A_RED, Step::A)
            &&& has_factor(s, Carrier::ELECTRICIDAD, Source::INSITU, Dest::A_NEPB, Step::A)
            &&& has_factor(s, Carrier::EAMBIENTE, Source::INSITU, Dest::A_RED, Step::A)
            &&& has_factor(s, Carrier::EAMBIENTE, Source::INSITU, Dest::A_NEPB, Step::A)
            &&& has_factor(s, Carrier::TERMOSOLAR, Source::INSITU, Dest::A_RED, Step::A)
            &&& has_factor(s, Carrier::TERMOSOLAR, Source::INSITU, Dest::A_NEPB, Step::A)
        }),
{
    let el = Carrier::ELECTRICIDAD;
    let (ins, red) = (Source::INSITU, Source::RED);
    let (sum, ared, anepb) = (Dest::SUMINISTRO, Dest::A_RED, Dest::A_NEPB);
    let a = Step::A;
    let s5 = with_onsite_factors(s0, renewable);
    let t = normalized_tail(s5, defaults, zero);
    let cg = "Factor de paso generado (el impacto de la cogeneración se tiene en cuenta en el vector de suministro)"@;
    // The grid supply factor of electricity comes from the factors given
    lemma_export_factors(t[1], el, ins, defaults, el, red, sum, a);
    lemma_frame(s5, el, Source::COGEN, sum, a, zero, cg, el, red, sum, a);
    lemma_onsite_pos(s0, renewable, el, red, sum, a);
    assert(has_factor(s0, el, red, sum, a));
    lemma_factor_pos(s0, el, red, sum, a);
    let p = factor_pos(s0, el, red, sum, a)->0;
    assert(s0[p].carrier == el);
    lemma_normalized_keeps(s0, defaults, renewable, zero, el, red, sum, a);
    // On site electricity
    lemma_normalized_supply(s0, defaults, renewable, zero, el, ins);
    // Step A of exported energy
    lemma_export_factors(t[1], el, ins, defaults, el, ins, ared, a);
    lemma_tail_from(s0, defaults, renewable, zero, 2, el, ins, ared, a);
    lemma_export_factors(t[1], el, ins, defaults, el, ins, anepb, a);
    lemma_tail_from(s0, defaults, renewable, zero, 2, el, ins, anepb, a);
    lemma_normalized_supply(s0, defaults, renewable, zero, Carrier::EAMBIENTE, ins);
    lemma_tail_has(s0, defaults, renewable, zero, 3, Carrier::EAMBIENTE, ins, sum, a);
    lemma_export_factors(t[3], Carrier::EAMBIENTE, ins, defaults, Carrier::EAMBIENTE, ins, ared, a);
    lemma_tail_from(s0, defaults, renewable, zero, 4, Carrier::EAMBIENTE, ins, ared, a);
    lemma_export_factors(t[3], Carrier::EAMBIENTE, ins, defaults, Carrier::EAMBIENTE, ins, anepb, a);
    lemma_tail_from(s0, defaults, renewable, zero, 4, Carrier::EAMBIENTE, ins, anepb, a);
    lemma_normalized_supply(s0, defaults, renewable, zero, Carrier::TERMOSOLAR, ins);
    lemma_tail_has(s0, defaults, renewable, zero, 4, Carrier::TERMOSOLAR, ins, sum, a);
    lemma_export_factors(t[4], Carrier::TERMOSOLAR, ins, defaults, Carrier::TERMOSOLAR, ins, ared, a);
    lemma_tail_from(s0, defaults, renewable, zero, 5, Carrier::TERMOSOLAR, ins, ared, a);
    lemma_export_factors(t[4], Carrier::TERMOSOLAR, ins, defaults, Carrier::TERMOSOLAR, ins, anepb, a);
    lemma_tail_from(s0, defaults, renewable, zero, 5, Carrier::TERMOSOLAR, ins, anepb, a);
}

/// Setting a factor that the list has to the values it has changes nothing.
proof fn lemma_updated_same<F>(s: Seq<FactorView<F>>, c: Carrier, so: Source, d: Dest, st: Step, v: F, comment: Seq<char>)
    requires
        has_factor(s, c, so, d, st),
        factor_values(s, c, so, d, st) == v,
    ensures
        updated(s, c, so, d, st, v, comment) == s,
{
    lemma_factor_pos(s, c, so, d, st);
    let i = factor_pos(s, c, so, d, st)->0;
    assert(s.update(i, FactorView { values: v, ..s[i] }) =~= s);
}

/// Adding the factors of exported energy to a list that has them all changes nothing.
proof fn lemma_export_same<F>(s: Seq<FactorView<F>>, c: Carrier, so: Source, defaults: UserWF<F>)
    requires
        has_factor(s, c, Source::RED, Dest::SUMINISTRO, Step::A),
        has_factor(s, c, so, Dest::A_RED, Step::B),
        has_factor(s, c, so, Dest::A_NEPB, Step::B),
        so != Source::COGEN ==> has_factor(s, c, so, Dest::A_RED, Step::A) && has_factor(s, c, so, Dest::A_NEPB, Step::A),
        so == Source::COGEN ==> has_factor(s, Carrier::ELECTRICIDAD, Source::COGEN, Dest::A_RED, Step::A)
            && has_factor(s, Carrier::ELECTRICIDAD, Source::COGEN, Dest::A_NEPB, Step::A),
    ensures
        with_export_factors(s, c, so, defaults) == Ok::<Seq<FactorView<F>>, Seq<char>>(s),
{
}

/// Normalizing normalized factors changes nothing: the same factors, in the same order,
/// with the same values and comments.
pub proof fn lemma_normalize_idempotent<F>(s0: Seq<FactorView<F>>, defaults: UserWF<F>, renewable: F, zero: F)
    requires
        normalized(s0, defaults, renewable, zero) is Ok,
    ensures
        normalized(normalized(s0, defaults, renewable, zero)->Ok_0, defaults, renewable, zero)
            == normalized(s0, defaults, renewable, zero),
{
    let s = normalized(s0, defaults, renewable, zero)->Ok_0;
    lemma_normalized_complete(s0, defaults, renewable, zero);
    lemma_normalized_electricity(s0, defaults, renewable, zero);
    lemma_normalized_carriers(s0, defaults, renewable, zero);
    let el = Carrier::ELECTRICIDAD;
    let (ins, red, cog) = (Source::INSITU, Source::RED, Source::COGEN);
    let d = Dest::SUMINISTRO;
    let a = Step::A;
    let ca = "Recursos usados para obtener energía ambiente"@;
    let cb = "Recursos usados para obtener energía ambiente (red ficticia)"@;
    let cc = "Recursos usados para obtener energía solar térmica"@;
    let cd = "Recursos usados para obtener energía solar térmica (red ficticia)"@;
    let ce = "Recursos usados para generar electricidad in situ"@;
    let cg = "Factor de paso generado (el impacto de la cogeneración se tiene en cuenta en el vector de suministro)"@;
    // The on site step changes nothing
    lemma_updated_same(s, Carrier::EAMBIENTE, ins, d, a, renewable, ca);
    lemma_updated_same(s, Carrier::EAMBIENTE, red, d, a, renewable, cb);
    lemma_updated_same(s, Carrier::TERMOSOLAR, ins, d, a, renewable, cc);
    lemma_updated_same(s, Carrier::TERMOSOLAR, red, d, a, renewable, cd);
    lemma_updated_same(s, el, ins, d, a, renewable, ce);
    assert(with_onsite_factors(s, renewable) == s);
    // Every carrier has its grid supply factor
    assert forall|i: int| 0 <= i < s.len() implies factor_pos(s, (#[trigger] s[i]).carrier, red, d, a) is Some by {
        if i < s0.len() && s[i].carrier == s0[i].carrier {
            assert(has_factor(s, s0[i].carrier, red, d, a));
        }
    }
    assert(grid_factors_for_all(s, s));
    // The cogeneration supply step changes nothing
    lemma_updated_same(s, el, cog, d, a, zero, cg);
    // The export factors and the district networks change nothing
    lemma_export_same(s, el, ins, defaults);
    lemma_export_same(s, el, cog, defaults);
    lemma_export_same(s, Carrier::EAMBIENTE, ins, defaults);
    lemma_export_same(s, Carrier::TERMOSOLAR, ins, defaults);
}

/// After setting the values of a factor, the factor found for its key has those values,
/// every factor with another key stays where it was, and at most one factor is added.
pub proof fn lemma_update_then_find<F>(
    s: Seq<FactorView<F>>,
    c: Carrier,
    so: Source,
    d: Dest,
    st: Step,
    v: F,
    comment: Seq<char>,
)
    ensures
        ({
            let r = updated(s, c, so, d, st, v, comment);
            &&& factor_pos(r, c, so, d, st) matches Some(i) && r[i].values == v
            &&& r.len() == s.len() || r.len() == s.len() + 1
            &&& forall|i: int| 0 <= i < s.len() && !has_key(s[i], c, so, d, st) ==> r[i] == s[i]
        }),
{
    lemma_factor_pos(s, c, so, d, st);
    let r = updated(s, c, so, d, st, v, comment);
    match factor_pos(s, c, so, d, st) {
        Some(i) => {
            lemma_factor_pos_at(r, c, so, d, st, i);
        },
        None => {
            lemma_factor_pos_at(r, c, so, d, st, s.len() as int);
        },
    }
}

/// Making sure that a factor exists leaves an existing one as it was; otherwise the factor
/// is added with the given values.
pub proof fn lemma_ensure_keeps<F>(
    s: Seq<FactorView<F>>,
    c: Carrier,
    so: Source,
    d: Dest,
    st: Step,
    v: F,
    comment: Seq<char>,
)
    ensures
        ({
            let r = ensured(s, c, so, d, st, v, comment);
            &&& factor_pos(s, c, so, d, st) is Some ==> r == s
            &&& factor_pos(s, c, so, d, st) is None ==> factor_pos(r, c, so, d, st) == Some(s.len() as int)
                && r[s.len() as int].values == v && r.drop_last() == s
        }),
{
    lemma_factor_pos(s, c, so, d, st);
    let r = ensured(s, c, so, d, st, v, comment);
    if factor_pos(s, c, so, d, st) is None {
        lemma_factor_pos_at(r, c, so, d, st, s.len() as int);
        assert(r.drop_last() =~= s);
    }
}

} // verus!
