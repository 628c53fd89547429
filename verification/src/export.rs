//! The type export pipeline.
//!
//! Given a frozen type descriptor store, the pipeline groups definitions by
//! declared name, silently canonicalizes same-named definitions that are
//! structurally identical, rejects same-named definitions that differ, and
//! renders the survivors sorted lexicographically by name. The rendered text
//! is a function of the *set* of declared structures alone — never of the
//! build-local identifiers or of insertion order — so two builds that declare
//! the same types produce byte-identical output.

use crate::order::{lemma_lex_from_connex, lemma_lex_from_irrefl, lemma_lex_from_trans, lex_lt,
    str_eq, str_lt};
use crate::store::{StoreEntryV, TypeDescriptorStore};
use crate::types::{fields_v, strings_v, structural_eq, variants_v, Field, FieldV, Location,
    ShapeV, StructuralV, TypeDefinition, TypeShape, Variant, VariantV};
use vstd::prelude::*;
use vstd::string::StringExecFns;

verus! {

broadcast use vstd::seq_lib::seq_to_set_is_finite;

/// An export-time failure: one declared name carrying two structurally
/// different definitions, with both declaration sites for diagnostics.
#[derive(Debug)]
pub enum ExportError {
    DuplicateTypeName { name: String, location_a: Location, location_b: Location },
}

/// The structural part of every definition of a store, in entry order.
pub open spec fn structurals(s: Seq<StoreEntryV>) -> Seq<StructuralV> {
    s.map_values(|e: StoreEntryV| e.def.structural)
}

/// The set of declared structures: what the export output is a function of.
pub open spec fn structural_set(s: Seq<StoreEntryV>) -> Set<StructuralV> {
    structurals(s).to_set()
}

/// Two structures in the set share a name but differ: the export must fail.
pub open spec fn set_conflict(s: Set<StructuralV>) -> bool {
    exists|x: StructuralV, y: StructuralV|
        s.contains(x) && s.contains(y) && x.name == y.name && x != y
}

/// `x` is in `s` and no member's name comes before `x`'s.
pub open spec fn leads(x: StructuralV, s: Set<StructuralV>) -> bool {
    s.contains(x) && (forall|y: StructuralV|
        s.contains(y) ==> (x.name == y.name || lex_lt(x.name, y.name)))
}

/// The canonical order of a set of structures: repeatedly take a member whose
/// name comes first. This is a function of the set alone.
pub open spec fn canon_of(s: Set<StructuralV>) -> Seq<StructuralV>
    decreases s.len(),
    when s.finite()
{
    if s.finite() && s.len() > 0 {
        let m = choose|m: StructuralV| leads(m, s);
        if s.contains(m) {
            seq![m] + canon_of(s.remove(m))
        } else {
            Seq::empty()
        }
    } else {
        Seq::empty()
    }
}

/// Names strictly increase along the sequence.
pub open spec fn names_sorted(ds: Seq<StructuralV>) -> bool {
    forall|a: int, b: int| 0 <= a < b < ds.len() ==> lex_lt(ds[a].name, ds[b].name)
}

/// A name-sorted sequence is the canonical order of its own element set:
/// sorting by name erases whatever order the elements arrived in.
pub proof fn lemma_sorted_is_canon(ds: Seq<StructuralV>)
    requires
        names_sorted(ds),
    ensures
        canon_of(ds.to_set()) == ds,
    decreases ds.len(),
{
    let s = ds.to_set();
    if ds.len() == 0 {
        assert(s =~= Set::<StructuralV>::empty());
        assert(canon_of(s) == Seq::<StructuralV>::empty());
        assert(ds =~= Seq::<StructuralV>::empty());
    } else {
        let head = ds[0];
        assert(ds.contains(head));
        assert forall|y: StructuralV| s.contains(y) implies (head.name == y.name || lex_lt(
            head.name,
            y.name,
        )) by {
            let j = choose|j: int| 0 <= j < ds.len() && ds[j] == y;
            if j > 0 {
                assert(lex_lt(ds[0].name, ds[j].name));
            }
        }
        assert(leads(head, s));
        let m = choose|m: StructuralV| leads(m, s);
        assert(leads(m, s));
        if m.name != head.name {
            assert(lex_lt(m.name, head.name));
            assert(lex_lt(head.name, m.name));
            lemma_lex_from_trans(m.name, head.name, m.name, 0);
            lemma_lex_from_irrefl(m.name, 0);
            assert(false);
        }
        let k = choose|k: int| 0 <= k < ds.len() && ds[k] == m;
        if k > 0 {
            assert(lex_lt(ds[0].name, ds[k].name));
            lemma_lex_from_irrefl(head.name, 0);
            assert(false);
        }
        assert(m == head);
        assert(s.len() > 0) by {
            assert(s.contains(head));
        }
        let tail = ds.subrange(1, ds.len() as int);
        assert forall|y: StructuralV| tail.to_set().contains(y) implies s.remove(head).contains(
            y,
        ) by {
            let j = choose|j: int| 0 <= j < tail.len() && tail[j] == y;
            assert(ds[j + 1] == y);
            assert(lex_lt(ds[0].name, ds[j + 1].name));
            if y == head {
                lemma_lex_from_irrefl(head.name, 0);
            }
        }
        assert forall|y: StructuralV| s.remove(head).contains(y) implies tail.to_set().contains(
            y,
        ) by {
            let j = choose|j: int| 0 <= j < ds.len() && ds[j] == y;
            if j == 0 {
                assert(y == head);
                assert(false);
            }
            assert(tail[j - 1] == y);
            assert(tail.contains(y));
        }
        assert(tail.to_set() =~= s.remove(head));
        assert(names_sorted(tail));
        lemma_sorted_is_canon(tail);
        assert(canon_of(s) == seq![head] + canon_of(s.remove(head)));
        assert(seq![head] + tail =~= ds);
    }
}

/// The rendering of one field.
pub open spec fn spec_render_field(f: FieldV) -> Seq<char> {
    " "@ + f.name + ": "@ + f.ty + ";"@
}

/// The rendering of a field list, in order.
pub open spec fn spec_render_fields(fs: Seq<FieldV>) -> Seq<char>
    decreases fs.len(),
{
    if fs.len() == 0 {
        Seq::empty()
    } else {
        spec_render_fields(fs.drop_last()) + spec_render_field(fs.last())
    }
}

/// The rendering of a braced field block.
pub open spec fn spec_render_field_block(fs: Seq<FieldV>) -> Seq<char> {
    "{"@ + spec_render_fields(fs) + " }"@
}

/// The rendering of one enum variant.
pub open spec fn spec_render_variant(v: VariantV) -> Seq<char> {
    " | "@ + v.name + " "@ + spec_render_field_block(v.fields)
}

/// The rendering of a variant list, in order.
pub open spec fn spec_render_variants(vs: Seq<VariantV>) -> Seq<char>
    decreases vs.len(),
{
    if vs.len() == 0 {
        Seq::empty()
    } else {
        spec_render_variants(vs.drop_last()) + spec_render_variant(vs.last())
    }
}

/// The comma-separated list inside a generic-parameter bracket (nonempty).
pub open spec fn spec_render_generics_inner(gs: Seq<Seq<char>>) -> Seq<char>
    decreases gs.len(),
{
    if gs.len() <= 1 {
        if gs.len() == 0 {
            Seq::empty()
        } else {
            gs[0]
        }
    } else {
        spec_render_generics_inner(gs.drop_last()) + ", "@ + gs.last()
    }
}

/// The rendering of a generic-parameter list; empty lists render as nothing.
pub open spec fn spec_render_generics(gs: Seq<Seq<char>>) -> Seq<char> {
    if gs.len() == 0 {
        Seq::empty()
    } else {
        "<"@ + spec_render_generics_inner(gs) + ">"@
    }
}

/// The rendering of a shape.
pub open spec fn spec_render_shape(sh: ShapeV) -> Seq<char> {
    match sh {
        ShapeV::Struct { fields } => spec_render_field_block(fields),
        ShapeV::Enum { variants } => spec_render_variants(variants),
    }
}

/// The export block of one structure, preceded by a blank line.
pub open spec fn spec_render_block(d: StructuralV) -> Seq<char> {
    "\nexport type "@ + d.name + spec_render_generics(d.generics) + " = "@ + spec_render_shape(
        d.shape,
    ) + "\n"@
}

/// The blocks of a sequence of structures, in order.
pub open spec fn spec_render_blocks(ds: Seq<StructuralV>) -> Seq<char>
    decreases ds.len(),
{
    if ds.len() == 0 {
        Seq::empty()
    } else {
        spec_render_blocks(ds.drop_last()) + spec_render_block(ds.last())
    }
}

/// The optional user header: nothing, or the header and a line break.
pub open spec fn spec_render_header(header: Seq<char>) -> Seq<char> {
    if header.len() == 0 {
        Seq::empty()
    } else {
        header + "\n"@
    }
}

/// The full export text of a set of declared structures: header, banner, then
/// one block per structure in canonical name order.
pub open spec fn spec_export_text(s: Set<StructuralV>, header: Seq<char>) -> Seq<char> {
    spec_render_header(header) + "// Do not edit this file manually."@ + "\n"@
        + spec_render_blocks(canon_of(s))
}

/// Exporting is deterministic: any two stores declaring the same set of
/// structures render to the same text, whatever identifiers their builds
/// assigned and in whatever order the declarations arrived; and whether the
/// export fails is likewise decided by that set alone.
pub proof fn lemma_export_deterministic(
    s1: Seq<StoreEntryV>,
    s2: Seq<StoreEntryV>,
    header: Seq<char>,
)
    requires
        structural_set(s1) == structural_set(s2),
    ensures
        spec_export_text(structural_set(s1), header) == spec_export_text(
            structural_set(s2),
            header,
        ),
        set_conflict(structural_set(s1)) == set_conflict(structural_set(s2)),
{
}

/// Two same-named declarations with different shapes are a conflict wherever
/// they sit in the store.
pub proof fn lemma_shape_clash_is_conflict(s: Seq<StoreEntryV>, i: int, j: int)
    requires
        0 <= i < s.len(),
        0 <= j < s.len(),
        s[i].def.structural.name == s[j].def.structural.name,
        s[i].def.structural != s[j].def.structural,
    ensures
        set_conflict(structural_set(s)),
{
    let x = s[i].def.structural;
    let y = s[j].def.structural;
    assert(structurals(s)[i] == x);
    assert(structurals(s).contains(x));
    assert(structurals(s)[j] == y);
    assert(structurals(s).contains(y));
    assert(structural_set(s).contains(x));
    assert(structural_set(s).contains(y));
}

/// Appends the rendering of a field list to `out`.
fn put_fields(out: &mut String, fs: &Vec<Field>)
    ensures
        final(out)@ == old(out)@ + spec_render_fields(fields_v(fs@)),
{
    let n = fs.len();
    let mut i: usize = 0;
    proof {
        assert(fields_v(fs@).take(0) =~= Seq::<FieldV>::empty());
        assert(out@ =~= old(out)@ + spec_render_fields(fields_v(fs@).take(0)));
    }
    while i < n
        invariant
            0 <= i <= n,
            n == fs@.len(),
            out@ == old(out)@ + spec_render_fields(fields_v(fs@).take(i as int)),
        decreases n - i,
    {
        out.append(" ");
        out.append(fs[i].name.as_str());
        out.append(": ");
        out.append(fs[i].ty.as_str());
        out.append(";");
        proof {
            let fsv = fields_v(fs@);
            assert(fsv.take(i as int + 1).drop_last() =~= fsv.take(i as int));
            assert(fsv.take(i as int + 1).last() == fsv[i as int]);
            assert(fsv[i as int].name == fs@[i as int].name@);
            assert(fsv[i as int].ty == fs@[i as int].ty@);
            assert(out@ =~= old(out)@ + spec_render_fields(fsv.take(i as int + 1)));
        }
        i = i + 1;
    }
    proof {
        assert(fields_v(fs@).take(n as int) =~= fields_v(fs@));
    }
}

/// Appends the rendering of a braced field block to `out`.
fn put_field_block(out: &mut String, fs: &Vec<Field>)
    ensures
        final(out)@ == old(out)@ + spec_render_field_block(fields_v(fs@)),
{
    out.append("{");
    put_fields(out, fs);
    out.append(" }");
    proof {
        assert(out@ =~= old(out)@ + spec_render_field_block(fields_v(fs@)));
    }
}

/// Appends the rendering of a variant list to `out`.
fn put_variants(out: &mut String, vs: &Vec<Variant>)
    ensures
        final(out)@ == old(out)@ + spec_render_variants(variants_v(vs@)),
{
    let n = vs.len();
    let mut i: usize = 0;
    proof {
        assert(variants_v(vs@).take(0) =~= Seq::<VariantV>::empty());
        assert(out@ =~= old(out)@ + spec_render_variants(variants_v(vs@).take(0)));
    }
    while i < n
        invariant
            0 <= i <= n,
            n == vs@.len(),
            out@ == old(out)@ + spec_render_variants(variants_v(vs@).take(i as int)),
        decreases n - i,
    {
        out.append(" | ");
        out.append(vs[i].name.as_str());
        out.append(" ");
        put_field_block(out, &vs[i].fields);
        proof {
            let vsv = variants_v(vs@);
            assert(vsv.take(i as int + 1).drop_last() =~= vsv.take(i as int));
            assert(vsv.take(i as int + 1).last() == vsv[i as int]);
            assert(vsv[i as int].name == vs@[i as int].name@);
            assert(vsv[i as int].fields == fields_v(vs@[i as int].fields@));
            assert(out@ =~= old(out)@ + spec_render_variants(vsv.take(i as int + 1)));
        }
        i = i + 1;
    }
    proof {
        assert(variants_v(vs@).take(n as int) =~= variants_v(vs@));
    }
}

/// Appends the rendering of a generic-parameter list to `out`.
fn put_generics(out: &mut String, gs: &Vec<String>)
    ensures
        final(out)@ == old(out)@ + spec_render_generics(strings_v(gs@)),
{
    let n = gs.len();
    if n == 0 {
        proof {
            assert(out@ =~= old(out)@ + spec_render_generics(strings_v(gs@)));
        }
        return ;
    }
    out.append("<");
    out.append(gs[0].as_str());
    let mut i: usize = 1;
    proof {
        let gsv = strings_v(gs@);
        assert(gsv.take(1).len() == 1);
        assert(gsv.take(1)[0] == gsv[0]);
        assert(out@ =~= old(out)@ + "<"@ + spec_render_generics_inner(gsv.take(1)));
    }
    while i < n
        invariant
            1 <= i <= n,
            n == gs@.len(),
            out@ == old(out)@ + "<"@ + spec_render_generics_inner(strings_v(gs@).take(i as int)),
        decreases n - i,
    {
        out.append(", ");
        out.append(gs[i].as_str());
        proof {
            let gsv = strings_v(gs@);
            assert(gsv.take(i as int + 1).drop_last() =~= gsv.take(i as int));
            assert(gsv.take(i as int + 1).last() == gsv[i as int]);
            assert(gsv[i as int] == gs@[i as int]@);
            assert(out@ =~= old(out)@ + "<"@ + spec_render_generics_inner(
                gsv.take(i as int + 1),
            ));
        }
        i = i + 1;
    }
    out.append(">");
    proof {
        assert(strings_v(gs@).take(n as int) =~= strings_v(gs@));
        assert(out@ =~= old(out)@ + spec_render_generics(strings_v(gs@)));
    }
}

/// Appends the rendering of a shape to `out`.
fn put_shape(out: &mut String, sh: &TypeShape)
    ensures
        final(out)@ == old(out)@ + spec_render_shape(sh@),
{
    match sh {
        TypeShape::Struct { fields } => {
            put_field_block(out, fields);
        },
        TypeShape::Enum { variants } => {
            put_variants(out, variants);
        },
    }
}

/// Appends the export block of one definition to `out`.
fn put_block(out: &mut String, d: &TypeDefinition)
    ensures
        final(out)@ == old(out)@ + spec_render_block(d@.structural),
{
    out.append("\nexport type ");
    out.append(d.name.as_str());
    put_generics(out, &d.generics);
    out.append(" = ");
    put_shape(out, &d.shape);
    out.append("\n");
    proof {
        assert(out@ =~= old(out)@ + spec_render_block(d@.structural));
    }
}

/// The name of the kept definition at position `k`.
pub open spec fn kept_name(c: Seq<StoreEntryV>, kept: Seq<usize>, k: int) -> Seq<char> {
    c[kept[k] as int].def.structural.name
}

/// The kept names strictly increase.
pub open spec fn kept_sorted(c: Seq<StoreEntryV>, kept: Seq<usize>) -> bool {
    forall|a: int, b: int|
        0 <= a < b < kept.len() ==> lex_lt(kept_name(c, kept, a), kept_name(c, kept, b))
}

/// Entry `j` has a structurally identical representative among the kept ones.
pub open spec fn covered(c: Seq<StoreEntryV>, kept: Seq<usize>, j: int) -> bool {
    exists|k: int|
        0 <= k < kept.len() && c[j].def.structural == c[#[trigger] kept[k] as int].def.structural
}

/// The position where `name` sits, or would be inserted, in the kept list.
fn find_pos(store: &TypeDescriptorStore, kept: &Vec<usize>, name: &String) -> (r: (bool, usize))
    requires
        forall|k: int| 0 <= k < kept@.len() ==> (#[trigger] kept@[k]) < store.entries@.len(),
        kept_sorted(store.contents(), kept@),
    ensures
        r.1 <= kept@.len(),
        forall|j: int| 0 <= j < r.1 ==> lex_lt(kept_name(store.contents(), kept@, j), name@),
        r.0 <==> (r.1 < kept@.len() && kept_name(store.contents(), kept@, r.1 as int) == name@),
        !r.0 && r.1 < kept@.len() ==> lex_lt(
            name@,
            kept_name(store.contents(), kept@, r.1 as int),
        ),
{
    let ghost c = store.contents();
    let n = kept.len();
    let mut pos: usize = 0;
    while pos < n
        invariant
            0 <= pos <= n,
            n == kept@.len(),
            c == store.contents(),
            forall|k: int| 0 <= k < kept@.len() ==> (#[trigger] kept@[k]) < store.entries@.len(),
            kept_sorted(c, kept@),
            forall|j: int| 0 <= j < pos ==> lex_lt(kept_name(c, kept@, j), name@),
        decreases n - pos,
    {
        let idx = kept[pos];
        let kn = &store.entries[idx].def.name;
        proof {
            assert(kn@ == kept_name(c, kept@, pos as int));
        }
        if str_lt(kn.as_str(), name.as_str()) {
            pos = pos + 1;
        } else {
            if str_eq(kn, name) {
                return (true, pos);
            }
            proof {
                if !lex_lt(name@, kn@) {
                    lemma_lex_from_connex(kn@, name@, 0);
                    assert(kn@ =~= name@);
                    assert(false);
                }
            }
            return (false, pos);
        }
    }
    (false, pos)
}

/// Exports the store's declared types as one deterministic text: the optional
/// header, a banner line, then one block per declared structure, sorted by
/// name. Same-named declarations merge silently when structurally identical
/// and fail the whole export when they differ.
#[verifier::rlimit(100)]
pub fn export_types(store: &TypeDescriptorStore, header: &str) -> (r: Result<String, ExportError>)
    ensures
        r is Err <==> set_conflict(structural_set(store.contents())),
        match r {
            Ok(t) => {
                // The output is a function of the set of declared structures
                // alone; the canonical order carries each of them exactly
                // once, names strictly increasing.
                &&& t@ == spec_export_text(structural_set(store.contents()), header@)
                &&& names_sorted(canon_of(structural_set(store.contents())))
                &&& canon_of(structural_set(store.contents())).to_set() == structural_set(
                    store.contents(),
                )
            },
            Err(e) => e matches ExportError::DuplicateTypeName { name, location_a, location_b }
                && (exists|i: int, j: int|
                0 <= i < store.contents().len() && 0 <= j < store.contents().len()
                    && store.contents()[i].def.structural.name == name@
                    && store.contents()[j].def.structural.name == name@
                    && store.contents()[i].def.structural != store.contents()[j].def.structural
                    && store.contents()[i].def.location == location_a@ && store.contents()[
                j].def.location == location_b@),
        },
{
    let ghost c = store.contents();
    let mut kept: Vec<usize> = Vec::new();
    let n = store.entries.len();
    let mut i: usize = 0;
    while i < n
        invariant
            0 <= i <= n,
            n == store.entries@.len(),
            c == store.contents(),
            forall|k: int| 0 <= k < kept@.len() ==> (#[trigger] kept@[k]) < i,
            kept_sorted(c, kept@),
            forall|j: int| 0 <= j < i ==> covered(c, kept@, j),
        decreases n - i,
    {
        let d = &store.entries[i].def;
        proof {
            assert(c[i as int].def == d@);
        }
        let fp = find_pos(store, &kept, &d.name);
        let found = fp.0;
        let pos = fp.1;
        if found {
            let ki = kept[pos];
            let kd = &store.entries[ki].def;
            proof {
                assert(c[ki as int].def == kd@);
                assert(kd@.structural.name == d@.structural.name);
            }
            if structural_eq(kd, d) {
                proof {
                    assert(c[i as int].def.structural == c[kept@[pos as int] as int].def.structural);
                    assert(covered(c, kept@, i as int));
                }
            } else {
                proof {
                    lemma_shape_clash_is_conflict(c, ki as int, i as int);
                }
                return Err(ExportError::DuplicateTypeName {
                    name: d.name.clone(),
                    location_a: Location { file: kd.location.file.clone(), line: kd.location.line },
                    location_b: Location { file: d.location.file.clone(), line: d.location.line },
                });
            }
        } else {
            let ghost oldkept = kept@;
            kept.insert(pos, i);
            proof {
                assert(kept@ == oldkept.insert(pos as int, i));
                oldkept.insert_ensures(pos as int, i);
                assert forall|k: int| 0 <= k < kept@.len() implies (#[trigger] kept@[k]) < i
                    + 1 by {
                    if k < pos {
                        assert(kept@[k] == oldkept[k]);
                    } else if k == pos {
                    } else {
                        assert(kept@[k] == oldkept[k - 1]);
                    }
                }
                assert(kept@[pos as int] == i);
                assert(kept_name(c, kept@, pos as int) == d@.structural.name);
                assert forall|a: int, b: int| 0 <= a < b < kept@.len() implies lex_lt(
                    kept_name(c, kept@, a),
                    kept_name(c, kept@, b),
                ) by {
                    if b < pos {
                        assert(kept@[a] == oldkept[a] && kept@[b] == oldkept[b]);
                        assert(lex_lt(kept_name(c, oldkept, a), kept_name(c, oldkept, b)));
                    } else if a > pos {
                        assert(kept@[a] == oldkept[a - 1] && kept@[b] == oldkept[b - 1]);
                        assert(lex_lt(kept_name(c, oldkept, a - 1), kept_name(c, oldkept, b - 1)));
                    } else if a < pos && b == pos {
                        assert(kept@[a] == oldkept[a]);
                        assert(lex_lt(kept_name(c, oldkept, a), d@.structural.name));
                    } else if a < pos && b > pos {
                        assert(kept@[a] == oldkept[a] && kept@[b] == oldkept[b - 1]);
                        if a < b - 1 {
                            assert(lex_lt(kept_name(c, oldkept, a), kept_name(c, oldkept, b - 1)));
                        }
                    } else if a == pos && b > pos {
                        assert(kept@[b] == oldkept[b - 1]);
                        assert(lex_lt(d@.structural.name, kept_name(c, oldkept, pos as int)));
                        if b - 1 > pos {
                            assert(lex_lt(
                                kept_name(c, oldkept, pos as int),
                                kept_name(c, oldkept, b - 1),
                            ));
                            lemma_lex_from_trans(
                                d@.structural.name,
                                kept_name(c, oldkept, pos as int),
                                kept_name(c, oldkept, b - 1),
                                0,
                            );
                        }
                    }
                }
                assert forall|j: int| 0 <= j < i + 1 implies covered(c, kept@, j) by {
                    if j == i {
                        assert(kept@[pos as int] == i);
                        assert(c[j].def.structural == c[kept@[pos as int] as int].def.structural);
                    } else {
                        assert(covered(c, oldkept, j));
                        let k = choose|k: int|
                            0 <= k < oldkept.len() && c[j].def.structural == c[#[trigger] oldkept[
                                k] as int].def.structural;
                        if k < pos {
                            assert(kept@[k] == oldkept[k]);
                        } else {
                            assert(kept@[k + 1] == oldkept[k]);
                        }
                    }
                }
            }
        }
        i = i + 1;
    }
    // No conflict: every two same-named structures share one representative.
    proof {
        assert forall|x: StructuralV, y: StructuralV|
            structural_set(c).contains(x) && structural_set(c).contains(y) && x.name
                == y.name implies x == y by {
            assert(structurals(c).contains(x));
            assert(structurals(c).contains(y));
            let j1 = choose|j: int| 0 <= j < structurals(c).len() && structurals(c)[j] == x;
            let j2 = choose|j: int| 0 <= j < structurals(c).len() && structurals(c)[j] == y;
            assert(c[j1].def.structural == x);
            assert(c[j2].def.structural == y);
            assert(covered(c, kept@, j1));
            assert(covered(c, kept@, j2));
            let k1 = choose|k: int|
                0 <= k < kept@.len() && c[j1].def.structural == c[#[trigger] kept@[k] as int].def.structural;
            let k2 = choose|k: int|
                0 <= k < kept@.len() && c[j2].def.structural == c[#[trigger] kept@[k] as int].def.structural;
            if k1 != k2 {
                assert(kept_name(c, kept@, k1) == kept_name(c, kept@, k2));
                if k1 < k2 {
                    assert(lex_lt(kept_name(c, kept@, k1), kept_name(c, kept@, k2)));
                    lemma_lex_from_irrefl(kept_name(c, kept@, k1), 0);
                } else {
                    assert(lex_lt(kept_name(c, kept@, k2), kept_name(c, kept@, k1)));
                    lemma_lex_from_irrefl(kept_name(c, kept@, k2), 0);
                }
                assert(false);
            }
            assert(c[kept@[k1] as int].def.structural == c[kept@[k2] as int].def.structural);
        }
        assert(!set_conflict(structural_set(c)));
    }
    // The kept structures, in order, are the canonical order of the set.
    let ghost ks = Seq::new(kept@.len() as nat, |k: int| c[kept@[k] as int].def.structural);
    proof {
        assert forall|y: StructuralV| ks.to_set().contains(y) implies structural_set(c).contains(
            y,
        ) by {
            let k = choose|k: int| 0 <= k < ks.len() && ks[k] == y;
            assert(structurals(c)[kept@[k] as int] == y);
            assert(structurals(c).contains(y));
        }
        assert forall|y: StructuralV| structural_set(c).contains(y) implies ks.to_set().contains(
            y,
        ) by {
            let j = choose|j: int| 0 <= j < structurals(c).len() && structurals(c)[j] == y;
            assert(covered(c, kept@, j));
            let k = choose|k: int|
                0 <= k < kept@.len() && c[j].def.structural == c[#[trigger] kept@[k] as int].def.structural;
            assert(ks[k] == y);
            assert(ks.contains(y));
        }
        assert(ks.to_set() =~= structural_set(c));
        assert forall|a: int, b: int| 0 <= a < b < ks.len() implies lex_lt(
            ks[a].name,
            ks[b].name,
        ) by {
            assert(ks[a] == c[kept@[a] as int].def.structural);
            assert(ks[b] == c[kept@[b] as int].def.structural);
            assert(lex_lt(kept_name(c, kept@, a), kept_name(c, kept@, b)));
        }
        assert(names_sorted(ks));
        lemma_sorted_is_canon(ks);
    }
    // Render: header, banner, then one block per kept structure.
    let mut out = String::new();
    if !header.is_empty() {
        out.append(header);
        out.append("\n");
    }
    proof {
        assert(out@ =~= spec_render_header(header@));
    }
    out.append("// Do not edit this file manually.");
    out.append("\n");
    let ghost base = out@;
    proof {
        assert(base =~= spec_render_header(header@) + "// Do not edit this file manually."@
            + "\n"@);
        assert(ks.take(0) =~= Seq::<StructuralV>::empty());
        assert(out@ =~= base + spec_render_blocks(ks.take(0)));
    }
    let m = kept.len();
    let mut t: usize = 0;
    while t < m
        invariant
            0 <= t <= m,
            m == kept@.len(),
            c == store.contents(),
            forall|k: int| 0 <= k < kept@.len() ==> (#[trigger] kept@[k]) < store.entries@.len(),
            ks == Seq::new(kept@.len() as nat, |k: int| c[kept@[k] as int].def.structural),
            out@ == base + spec_render_blocks(ks.take(t as int)),
        decreases m - t,
    {
        let ki = kept[t];
        put_block(&mut out, &store.entries[ki].def);
        proof {
            assert(c[ki as int].def.structural == ks[t as int]);
            assert(ks.take(t as int + 1).drop_last() =~= ks.take(t as int));
            assert(ks.take(t as int + 1).last() == ks[t as int]);
            assert(out@ =~= base + spec_render_blocks(ks.take(t as int + 1)));
        }
        t = t + 1;
    }
    proof {
        assert(ks.take(m as int) =~= ks);
        assert(out@ =~= spec_export_text(structural_set(c), header@));
    }
    Ok(out)
}

} // verus!
