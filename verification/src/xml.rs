//! XML form of components and weighting factors, compatible with the XML of the energy
//! performance certificate. Values are written as given, separated by commas.

use vstd::prelude::*;

use crate::components::Components;
use crate::record::{chars_each, concat_all, concat_strings, i32_chars, int_text, join, join_with, texts, views};
use crate::text::{chars_of, string_of};
use crate::types::energy::{EAux, EOut, EProd, EUsed, Energy};
use crate::types::factor::{Factor, FactorTexts};
use crate::types::meta::{escape_xml, xml_escape};
use crate::types::needs::BuildingNeeds;
use crate::types::Service;
use crate::wfactors::Factors;

verus! {

broadcast use vstd::string::group_string_axioms;

/// The XML of a comment: nothing when it is empty.
pub open spec fn xml_comment(c: Seq<char>) -> Seq<char> {
    if c.len() == 0 {
        Seq::empty()
    } else {
        "<Comentario>"@ + xml_escape(c) + "</Comentario>"@
    }
}

/// Values separated by commas.
pub open spec fn values_csv(v: Seq<String>) -> Seq<char> {
    join(texts(v), ","@)
}

/// The XML of a comment: nothing when it is empty.
fn comment_xml(c: &str) -> (r: String)
    ensures
        r@ == xml_comment(c@),
{
    if chars_of(c).len() == 0 {
        String::new()
    } else {
        let e = escape_xml(c);
        let parts = vec!["<Comentario>", e.as_str(), "</Comentario>"];
        let r = concat_strings(&parts);
        assert(parts@.map_values(|x: &str| x@) =~= seq!["<Comentario>"@, e@, "</Comentario>"@]);
        assert(concat_all(seq!["<Comentario>"@, e@, "</Comentario>"@]) =~= "<Comentario>"@ + e@
            + "</Comentario>"@) by {
            reveal_with_fuel(concat_all, 4);
        }
        r
    }
}

/// Values separated by commas.
fn csv_of(v: &Vec<String>) -> (r: String)
    ensures
        r@ == values_csv(v@),
{
    let c = chars_each(v);
    string_of(join_with(&c, ",").as_slice())
}

/// The decimal text of an id.
fn id_text(id: i32) -> (r: String)
    ensures
        r@ == int_text(id as int),
{
    string_of(i32_chars(id).as_slice())
}

impl EUsed<String> {
    /// XML of used energy.
    pub open spec fn spec_xml(&self) -> Seq<char> {
        concat_all(
            seq![
                "<Consumo><Id>"@,
                int_text(self.id as int),
                "</Id><Vector>"@,
                self.carrier.spec_name(),
                "</Vector><Servicio>"@,
                self.service.spec_name(),
                "</Servicio><Valores>"@,
                values_csv(self.values@),
                "</Valores>"@,
                xml_comment(self.comment@),
                "</Consumo>"@,
            ],
        )
    }

    /// The XML of used energy holds each of its fields in its own element, in order: the id, the
    /// carrier, the service, the values and the comment, if any.
    pub proof fn lemma_xml_fields(&self)
        ensures
            self.spec_xml() == "<Consumo><Id>"@ + int_text(self.id as int) + "</Id><Vector>"@
                + self.carrier.spec_name() + "</Vector><Servicio>"@ + self.service.spec_name()
                + "</Servicio><Valores>"@ + values_csv(self.values@) + "</Valores>"@
                + xml_comment(self.comment@) + "</Consumo>"@,
    {
        reveal_with_fuel(concat_all, 12);
    }

    /// XML of used energy.
    pub fn to_xml(&self) -> (r: String)
        ensures
            r@ == self.spec_xml(),
            r@ == "<Consumo><Id>"@ + int_text(self.id as int) + "</Id><Vector>"@
                + self.carrier.spec_name() + "</Vector><Servicio>"@ + self.service.spec_name()
                + "</Servicio><Valores>"@ + values_csv(self.values@) + "</Valores>"@
                + xml_comment(self.comment@) + "</Consumo>"@,
    {
        proof {
            self.lemma_xml_fields();
        }
        let id = id_text(self.id);
        let vals = csv_of(&self.values);
        let com = comment_xml(self.comment.as_str());
        let parts = vec![
            "<Consumo><Id>",
            id.as_str(),
            "</Id><Vector>",
            self.carrier.as_str(),
            "</Vector><Servicio>",
            self.service.as_str(),
            "</Servicio><Valores>",
            vals.as_str(),
            "</Valores>",
            com.as_str(),
            "</Consumo>",
        ];
        let r = concat_strings(&parts);
        assert(parts@.map_values(|x: &str| x@) =~= seq![
            "<Consumo><Id>"@,
            int_text(self.id as int),
            "</Id><Vector>"@,
            self.carrier.spec_name(),
            "</Vector><Servicio>"@,
            self.service.spec_name(),
            "</Servicio><Valores>"@,
            values_csv(self.values@),
            "</Valores>"@,
            xml_comment(self.comment@),
            "</Consumo>"@,
        ]);
        r
    }
}

impl EProd<String> {
    /// XML of produced energy.
    pub open spec fn spec_xml(&self) -> Seq<char> {
        concat_all(
            seq![
                "<Produccion><Id>"@,
                int_text(self.id as int),
                "</Id><Origen>"@,
                self.source.spec_name(),
                "</Origen><Valores>"@,
                values_csv(self.values@),
                "</Valores>"@,
                xml_comment(self.comment@),
                "</Produccion>"@,
            ],
        )
    }

    /// The XML of produced energy holds each of its fields in its own element, in order: the id,
    /// the production source, the values and the comment, if any.
    pub proof fn lemma_xml_fields(&self)
        ensures
            self.spec_xml() == "<Produccion><Id>"@ + int_text(self.id as int) + "</Id><Origen>"@
                + self.source.spec_name() + "</Origen><Valores>"@ + values_csv(self.values@)
                + "</Valores>"@ + xml_comment(self.comment@) + "</Produccion>"@,
    {
        reveal_with_fuel(concat_all, 10);
    }

    /// XML of produced energy.
    pub fn to_xml(&self) -> (r: String)
        ensures
            r@ == self.spec_xml(),
            r@ == "<Produccion><Id>"@ + int_text(self.id as int) + "</Id><Origen>"@
                + self.source.spec_name() + "</Origen><Valores>"@ + values_csv(self.values@)
                + "</Valores>"@ + xml_comment(self.comment@) + "</Produccion>"@,
    {
        proof {
            self.lemma_xml_fields();
        }
        let id = id_text(self.id);
        let vals = csv_of(&self.values);
        let com = comment_xml(self.comment.as_str());
        let parts = vec![
            "<Produccion><Id>",
            id.as_str(),
            "</Id><Origen>",
            self.source.as_str(),
            "</Origen><Valores>",
            vals.as_str(),
            "</Valores>",
            com.as_str(),
            "</Produccion>",
        ];
        let r = concat_strings(&parts);
        assert(parts@.map_values(|x: &str| x@) =~= seq![
            "<Produccion><Id>"@,
            int_text(self.id as int),
            "</Id><Origen>"@,
            self.source.spec_name(),
            "</Origen><Valores>"@,
            values_csv(self.values@),
            "</Valores>"@,
            xml_comment(self.comment@),
            "</Produccion>"@,
        ]);
        r
    }
}

impl EAux<String> {
    /// XML of auxiliary energy.
    pub open spec fn spec_xml(&self) -> Seq<char> {
        concat_all(
            seq![
                "<EAux><Id>"@,
                int_text(self.id as int),
                "</Id><Servicio>"@,
                self.service.spec_name(),
                "</Servicio><Valores>"@,
                values_csv(self.values@),
                "</Valores>"@,
                xml_comment(self.comment@),
                "</EAux>"@,
            ],
        )
    }

    /// The XML of auxiliary energy holds each of its fields in its own element, in order: the id,
    /// the service, the values and the comment, if any.
    pub proof fn lemma_xml_fields(&self)
        ensures
            self.spec_xml() == "<EAux><Id>"@ + int_text(self.id as int) + "</Id><Servicio>"@
                + self.service.spec_name() + "</Servicio><Valores>"@ + values_csv(self.values@)
                + "</Valores>"@ + xml_comment(self.comment@) + "</EAux>"@,
    {
        reveal_with_fuel(concat_all, 10);
    }

    /// XML of auxiliary energy.
    pub fn to_xml(&self) -> (r: String)
        ensures
            r@ == self.spec_xml(),
            r@ == "<EAux><Id>"@ + int_text(self.id as int) + "</Id><Servicio>"@
                + self.service.spec_name() + "</Servicio><Valores>"@ + values_csv(self.values@)
                + "</Valores>"@ + xml_comment(self.comment@) + "</EAux>"@,
    {
        proof {
            self.lemma_xml_fields();
        }
        let id = id_text(self.id);
        let vals = csv_of(&self.values);
        let com = comment_xml(self.comment.as_str());
        let parts = vec![
            "<EAux><Id>",
            id.as_str(),
            "</Id><Servicio>",
            self.service.as_str(),
            "</Servicio><Valores>",
            vals.as_str(),
            "</Valores>",
            com.as_str(),
            "</EAux>",
        ];
        let r = concat_strings(&parts);
        assert(parts@.map_values(|x: &str| x@) =~= seq![
            "<EAux><Id>"@,
            int_text(self.id as int),
            "</Id><Servicio>"@,
            self.service.spec_name(),
            "</Servicio><Valores>"@,
            values_csv(self.values@),
            "</Valores>"@,
            xml_comment(self.comment@),
            "</EAux>"@,
        ]);
        r
    }
}

impl EOut<String> {
    /// XML of delivered energy.
    pub open spec fn spec_xml(&self) -> Seq<char> {
        concat_all(
            seq![
                "<Salida><Id>"@,
                int_text(self.id as int),
                "</Id><Servicio>"@,
                self.service.spec_name(),
                "</Servicio><Valores>"@,
                values_csv(self.values@),
                "</Valores>"@,
                xml_comment(self.comment@),
                "</Salida>"@,
            ],
        )
    }

    /// The XML of delivered energy holds each of its fields in its own element, in order: the id,
    /// the service, the values and the comment, if any.
    pub proof fn lemma_xml_fields(&self)
        ensures
            self.spec_xml() == "<Salida><Id>"@ + int_text(self.id as int) + "</Id><Servicio>"@
                + self.service.spec_name() + "</Servicio><Valores>"@ + values_csv(self.values@)
                + "</Valores>"@ + xml_comment(self.comment@) + "</Salida>"@,
    {
        reveal_with_fuel(concat_all, 10);
    }

    /// XML of delivered energy.
    pub fn to_xml(&self) -> (r: String)
        ensures
            r@ == self.spec_xml(),
            r@ == "<Salida><Id>"@ + int_text(self.id as int) + "</Id><Servicio>"@
                + self.service.spec_name() + "</Servicio><Valores>"@ + values_csv(self.values@)
                + "</Valores>"@ + xml_comment(self.comment@) + "</Salida>"@,
    {
        proof {
            self.lemma_xml_fields();
        }
        let id = id_text(self.id);
        let vals = csv_of(&self.values);
        let com = comment_xml(self.comment.as_str());
        let parts = vec![
            "<Salida><Id>",
            id.as_str(),
            "</Id><Servicio>",
            self.service.as_str(),
            "</Servicio><Valores>",
            vals.as_str(),
            "</Valores>",
            com.as_str(),
            "</Salida>",
        ];
        let r = concat_strings(&parts);
        assert(parts@.map_values(|x: &str| x@) =~= seq![
            "<Salida><Id>"@,
            int_text(self.id as int),
            "</Id><Servicio>"@,
            self.service.spec_name(),
            "</Servicio><Valores>"@,
            values_csv(self.values@),
            "</Valores>"@,
            xml_comment(self.comment@),
            "</Salida>"@,
        ]);
        r
    }
}

impl Energy<String> {
    /// XML of an energy component.
    pub open spec fn spec_xml(&self) -> Seq<char> {
        match self {
            Energy::Prod(e) => e.spec_xml(),
            Energy::Used(e) => e.spec_xml(),
            Energy::Aux(e) => e.spec_xml(),
            Energy::Out(e) => e.spec_xml(),
        }
    }

    /// XML of an energy component.
    pub fn to_xml(&self) -> (r: String)
        ensures
            r@ == self.spec_xml(),
    {
        match self {
            Energy::Prod(e) => e.to_xml(),
            Energy::Used(e) => e.to_xml(),
            Energy::Aux(e) => e.to_xml(),
            Energy::Out(e) => e.to_xml(),
        }
    }
}

impl BuildingNeeds<String> {
    /// XML of building needs.
    pub open spec fn spec_xml(&self) -> Seq<char> {
        concat_all(
            seq![
                "<DemandaEdificio><Servicio>"@,
                self.service.spec_name(),
                "</Servicio><Valores>"@,
                values_csv(self.values@),
                "</Valores></DemandaEdificio>"@,
            ],
        )
    }

    /// The XML of building needs holds each of its fields in its own element, in order: the service
    /// and the values.
    pub proof fn lemma_xml_fields(&self)
        ensures
            self.spec_xml() == "<DemandaEdificio><Servicio>"@ + self.service.spec_name()
                + "</Servicio><Valores>"@ + values_csv(self.values@)
                + "</Valores></DemandaEdificio>"@,
    {
        reveal_with_fuel(concat_all, 6);
    }

    /// XML of building needs.
    pub fn to_xml(&self) -> (r: String)
        ensures
            r@ == self.spec_xml(),
            r@ == "<DemandaEdificio><Servicio>"@ + self.service.spec_name()
                + "</Servicio><Valores>"@ + values_csv(self.values@)
                + "</Valores></DemandaEdificio>"@,
    {
        proof {
            self.lemma_xml_fields();
        }
        let vals = csv_of(&self.values);
        let parts = vec![
            "<DemandaEdificio><Servicio>",
            self.service.as_str(),
            "</Servicio><Valores>",
            vals.as_str(),
            "</Valores></DemandaEdificio>",
        ];
        let r = concat_strings(&parts);
        assert(parts@.map_values(|x: &str| x@) =~= seq![
            "<DemandaEdificio><Servicio>"@,
            self.service.spec_name(),
            "</Servicio><Valores>"@,
            values_csv(self.values@),
            "</Valores></DemandaEdificio>"@,
        ]);
        r
    }
}

impl Factor<FactorTexts> {
    /// XML of a factor.
    pub open spec fn spec_xml(&self) -> Seq<char> {
        concat_all(
            seq![
                "<Factor><Vector>"@,
                self.carrier.spec_name(),
                "</Vector><Origen>"@,
                self.source.spec_name(),
                "</Origen><Destino>"@,
                self.dest.spec_name(),
                "</Destino><Paso>"@,
                self.step.spec_name(),
                "</Paso><ren>"@,
                self.values.ren@,
                "</ren><nren>"@,
                self.values.nren@,
                "</nren><co2>"@,
                self.values.co2@,
                "</co2>"@,
                xml_comment(self.comment@),
                "</Factor>"@,
            ],
        )
    }

    /// The XML of a factor holds each of its fields in its own element, in order: the
    /// carrier, the source, the destination, the step, then the renewable, non renewable
    /// and CO2 values, and the comment, if any.
    pub proof fn lemma_xml_fields(&self)
        ensures
            self.spec_xml() == "<Factor><Vector>"@ + self.carrier.spec_name() + "</Vector><Origen>"@
                + self.source.spec_name() + "</Origen><Destino>"@ + self.dest.spec_name()
                + "</Destino><Paso>"@ + self.step.spec_name() + "</Paso><ren>"@ + self.values.ren@
                + "</ren><nren>"@ + self.values.nren@ + "</nren><co2>"@ + self.values.co2@
                    + "</co2>"@
                + xml_comment(self.comment@) + "</Factor>"@,
    {
        reveal_with_fuel(concat_all, 18);
    }

    /// XML of a factor.
    pub fn to_xml(&self) -> (r: String)
        ensures
            r@ == self.spec_xml(),
            r@ == "<Factor><Vector>"@ + self.carrier.spec_name() + "</Vector><Origen>"@
                + self.source.spec_name() + "</Origen><Destino>"@ + self.dest.spec_name()
                + "</Destino><Paso>"@ + self.step.spec_name() + "</Paso><ren>"@ + self.values.ren@
                + "</ren><nren>"@ + self.values.nren@ + "</nren><co2>"@ + self.values.co2@
                    + "</co2>"@
                + xml_comment(self.comment@) + "</Factor>"@,
    {
        proof {
            self.lemma_xml_fields();
        }
        let com = comment_xml(self.comment.as_str());
        let parts = vec![
            "<Factor><Vector>",
            self.carrier.as_str(),
            "</Vector><Origen>",
            self.source.as_str(),
            "</Origen><Destino>",
            self.dest.as_str(),
            "</Destino><Paso>",
            self.step.as_str(),
            "</Paso><ren>",
            self.values.ren.as_str(),
            "</ren><nren>",
            self.values.nren.as_str(),
            "</nren><co2>",
            self.values.co2.as_str(),
            "</co2>",
            com.as_str(),
            "</Factor>",
        ];
        let r = concat_strings(&parts);
        assert(parts@.map_values(|x: &str| x@) =~= seq![
            "<Factor><Vector>"@,
            self.carrier.spec_name(),
            "</Vector><Origen>"@,
            self.source.spec_name(),
            "</Origen><Destino>"@,
            self.dest.spec_name(),
            "</Destino><Paso>"@,
            self.step.spec_name(),
            "</Paso><ren>"@,
            self.values.ren@,
            "</ren><nren>"@,
            self.values.nren@,
            "</nren><co2>"@,
            self.values.co2@,
            "</co2>"@,
            xml_comment(self.comment@),
            "</Factor>"@,
        ]);
        r
    }
}

/// The XML line of building needs inside the components.
pub open spec fn needs_line(n: BuildingNeeds<String>) -> Seq<char> {
    "<Demanda><Servicio>"@ + n.service.spec_name() + "</Servicio><Valores>"@ + values_csv(n.values@)
        + "</Valores>"@
}

/// The XML lines of the building needs of a service, in order.
pub open spec fn needs_lines(b: Seq<BuildingNeeds<String>>, srv: Service) -> Seq<Seq<char>>
    decreases b.len(),
{
    if b.len() == 0 {
        Seq::empty()
    } else if b.last().service == srv {
        needs_lines(b.drop_last(), srv).push(needs_line(b.last()))
    } else {
        needs_lines(b.drop_last(), srv)
    }
}

/// The XML lines of the building needs of a service, in order.
fn needs_lines_of(b: &Vec<BuildingNeeds<String>>, srv: Service) -> (r: Vec<Vec<char>>)
    ensures
        views(r@) == needs_lines(b@, srv),
{
    let mut r: Vec<Vec<char>> = Vec::new();
    let mut k: usize = 0;
    assert(b@.take(0) =~= Seq::<BuildingNeeds<String>>::empty());
    while k < b.len()
        invariant
            k <= b@.len(),
            views(r@) == needs_lines(b@.take(k as int), srv),
        decreases b@.len() - k,
    {
        proof {
            assert(b@.take(k as int + 1).drop_last() =~= b@.take(k as int));
            assert(b@.take(k as int + 1).last() == b@[k as int]);
        }
        if b[k].service == srv {
            let vals = csv_of(&b[k].values);
            let a = crate::text::concat("<Demanda><Servicio>", b[k].service.as_str());
            let c = crate::text::concat(a.as_str(), "</Servicio><Valores>");
            let d = crate::text::concat(c.as_str(), vals.as_str());
            let e = crate::text::concat(d.as_str(), "</Valores>");
            let line = chars_of(e.as_str());
            let ghost before = r@;
            r.push(line);
            proof {
                crate::record::lemma_views_push(before, line);
            }
        }
        k = k + 1;
    }
    assert(b@.take(k as int) =~= b@);
    r
}

/// The XML of each element, as character vectors.
fn meta_xml_lines(m: &Vec<crate::types::Meta>) -> (r: Vec<Vec<char>>)
    ensures
        views(r@) == m@.map_values(|x: crate::types::Meta| x.spec_xml()),
{
    let ghost t = m@.map_values(|x: crate::types::Meta| x.spec_xml());
    let mut r: Vec<Vec<char>> = Vec::new();
    let mut k: usize = 0;
    while k < m.len()
        invariant
            k <= m@.len(),
            t == m@.map_values(|x: crate::types::Meta| x.spec_xml()),
            views(r@) == t.take(k as int),
        decreases m@.len() - k,
    {
        let line = chars_of(m[k].to_xml().as_str());
        let ghost before = r@;
        r.push(line);
        proof {
            crate::record::lemma_views_push(before, line);
            assert(t.take(k as int + 1) =~= t.take(k as int).push(line@));
        }
        k = k + 1;
    }
    assert(t.take(k as int) =~= t);
    r
}

impl Factors<FactorTexts> {
    /// XML of the factors: the metadata and the factors, each on a line.
    pub open spec fn spec_xml(&self) -> Seq<char> {
        "<FactoresDePaso>\n    "@ + join(
            self.wmeta@.map_values(|x: crate::types::Meta| x.spec_xml()),
            "\n"@,
        ) + "\n    "@ + join(
            self.wdata@.map_values(|f: Factor<FactorTexts>| f.spec_xml()),
            "\n"@,
        ) + "\n</FactoresDePaso>"@
    }

    /// XML of the factors: the metadata and the factors, each on a line.
    pub fn to_xml(&self) -> (r: String)
        ensures
            r@ == self.spec_xml(),
    {
        let metas = meta_xml_lines(&self.wmeta);
        let ghost t = self.wdata@.map_values(|f: Factor<FactorTexts>| f.spec_xml());
        let mut datas: Vec<Vec<char>> = Vec::new();
        let mut k: usize = 0;
        while k < self.wdata.len()
            invariant
                k <= self.wdata@.len(),
                t == self.wdata@.map_values(|f: Factor<FactorTexts>| f.spec_xml()),
                views(datas@) == t.take(k as int),
            decreases self.wdata@.len() - k,
        {
            let line = chars_of(self.wdata[k].to_xml().as_str());
            let ghost before = datas@;
            datas.push(line);
            proof {
                crate::record::lemma_views_push(before, line);
                assert(t.take(k as int + 1) =~= t.take(k as int).push(line@));
            }
            k = k + 1;
        }
        assert(t.take(k as int) =~= t);
        let m = string_of(join_with(&metas, "\n").as_slice());
        let d = string_of(join_with(&datas, "\n").as_slice());
        let a = crate::text::concat("<FactoresDePaso>\n    ", m.as_str());
        let b = crate::text::concat(a.as_str(), "\n    ");
        let c = crate::text::concat(b.as_str(), d.as_str());
        crate::text::concat(c.as_str(), "\n</FactoresDePaso>")
    }
}

impl Components<String> {
    /// XML of the components: the metadata, the energy components and the building needs
    /// (those of ACS, CAL and REF, in that order), each on a line.
    pub open spec fn spec_xml(&self) -> Seq<char> {
        "<Componentes>\n        "@ + join(
            self.cmeta@.map_values(|x: crate::types::Meta| x.spec_xml()),
            "\n"@,
        ) + "\n        "@ + join(self.cdata@.map_values(|e: Energy<String>| e.spec_xml()), "\n"@)
            + "\n        "@ + join(
            needs_lines(self.building@, Service::ACS) + needs_lines(self.building@, Service::CAL)
                + needs_lines(self.building@, Service::REF),
            "\n"@,
        ) + "\n    </Componentes>"@
    }

    /// XML of the components: the metadata, the energy components and the building needs
    /// (those of ACS, CAL and REF, in that order), each on a line.
    pub fn to_xml(&self) -> (r: String)
        ensures
            r@ == self.spec_xml(),
    {
        let metas = meta_xml_lines(&self.cmeta);
        let ghost t = self.cdata@.map_values(|e: Energy<String>| e.spec_xml());
        let mut datas: Vec<Vec<char>> = Vec::new();
        let mut k: usize = 0;
        while k < self.cdata.len()
            invariant
                k <= self.cdata@.len(),
                t == self.cdata@.map_values(|e: Energy<String>| e.spec_xml()),
                views(datas@) == t.take(k as int),
            decreases self.cdata@.len() - k,
        {
            let line = chars_of(self.cdata[k].to_xml().as_str());
            let ghost before = datas@;
            datas.push(line);
            proof {
                crate::record::lemma_views_push(before, line);
                assert(t.take(k as int + 1) =~= t.take(k as int).push(line@));
            }
            k = k + 1;
        }
        assert(t.take(k as int) =~= t);
        let mut needs = needs_lines_of(&self.building, Service::ACS);
        let mut cal = needs_lines_of(&self.building, Service::CAL);
        let mut refr = needs_lines_of(&self.building, Service::REF);
        let ghost n1 = views(needs@);
        let ghost n2 = views(cal@);
        let ghost n3 = views(refr@);
        needs.append(&mut cal);
        needs.append(&mut refr);
        assert(views(needs@) =~= n1 + n2 + n3);
        let m = string_of(join_with(&metas, "\n").as_slice());
        let d = string_of(join_with(&datas, "\n").as_slice());
        let n = string_of(join_with(&needs, "\n").as_slice());
        let a = crate::text::concat("<Componentes>\n        ", m.as_str());
        let b = crate::text::concat(a.as_str(), "\n        ");
        let c = crate::text::concat(b.as_str(), d.as_str());
        let e = crate::text::concat(c.as_str(), "\n        ");
        let f = crate::text::concat(e.as_str(), n.as_str());
        crate::text::concat(f.as_str(), "\n    </Componentes>")
    }
}

} // verus!
