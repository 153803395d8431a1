use vstd::prelude::*;
use crate::binding::{
    Shape, lemma_position_bound, lookup, position, slot_count, slot_names, slot_names_of,
};
use crate::doc::{Meta, doc_template, template_of};
use crate::template::{CompiledTemplate, Mode, compile, compiled, fill, fill_markers, strings_view};
use crate::text::{trim, trimmed};
use crate::value::{Value, render_value, rendered};

verus! {

/// The declaration of one variant: its name, payload shape and metadata entries.
#[derive(Debug)]
pub struct VariantDecl {
    pub name: String,
    pub shape: Shape,
    pub attrs: Vec<Meta>,
}

/// A live value of the union: the name of its variant and its slot values, in
/// declaration order.
#[derive(Debug)]
pub struct Instance {
    pub variant: String,
    pub slots: Vec<Value>,
}

/// Why a union cannot be rendered.
#[derive(Debug)]
pub enum BuildError {
    /// Two variants share this name.
    DuplicateVariant { name: String },
    /// A placeholder of `variant` names no slot of that variant.
    UnresolvedName { variant: String, name: String },
}

/// The arguments for a compiled template's markers: each placeholder's slot value,
/// rendered in the placeholder's mode.
pub open spec fn ref_args(
    names: Seq<Seq<char>>,
    slots: Seq<Value>,
    refs: Seq<(Seq<char>, Mode)>,
) -> Seq<Seq<char>> {
    refs.map_values(|p: (Seq<char>, Mode)| rendered(slots[position(names, p.0) as int], p.1))
}

/// The text of a variant with the given slot values. A unit variant gives its template,
/// trimmed, with no placeholder read; any other fills its compiled template.
pub open spec fn render_variant(decl: VariantDecl, slots: Seq<Value>) -> Seq<char> {
    let t = template_of(decl.attrs@);
    if decl.shape is Unit {
        trim(t)
    } else {
        let c = compiled(t);
        fill(c.0, ref_args(slot_names(decl.shape), slots, c.1))
    }
}

/// Placeholder `j` of a variant's compiled template names no slot of the variant.
pub open spec fn unresolved_at(decl: VariantDecl, j: int) -> bool {
    let refs = compiled(template_of(decl.attrs@)).1;
    let names = slot_names(decl.shape);
    0 <= j < refs.len() && position(names, refs[j].0) == names.len()
}

/// Every placeholder of the variant names one of its slots. Unit variants have none.
pub open spec fn resolves(decl: VariantDecl) -> bool {
    decl.shape is Unit || forall|j: int| !unresolved_at(decl, j)
}

/// An earlier variant has the same name as variant `i`.
pub open spec fn duplicate_before(decls: Seq<VariantDecl>, i: int) -> bool {
    exists|k: int| 0 <= k < i && decls[k].name@ == decls[i].name@
}

pub open spec fn sound_at(decls: Seq<VariantDecl>, i: int) -> bool {
    !duplicate_before(decls, i) && resolves(decls[i])
}

/// Variant names are unique and every placeholder resolves.
pub open spec fn well_formed(decls: Seq<VariantDecl>) -> bool {
    forall|i: int| 0 <= i < decls.len() ==> sound_at(decls, i)
}

/// Variant `i` is the first that is not sound.
pub open spec fn first_unsound(decls: Seq<VariantDecl>, i: int) -> bool {
    &&& 0 <= i < decls.len()
    &&& !sound_at(decls, i)
    &&& forall|k: int| 0 <= k < i ==> sound_at(decls, k)
}

/// The instance belongs to a variant and has as many slot values as that variant has slots.
pub open spec fn accepts(decls: Seq<VariantDecl>, inst: Instance) -> bool {
    exists|i: int|
        0 <= i < decls.len() && #[trigger] decls[i].name@ == inst.variant@
            && inst.slots@.len() == slot_names(decls[i].shape).len()
}

/// What is kept for one variant once its template is read.
#[derive(Debug)]
enum Rendering {
    /// A unit variant: its trimmed template.
    Verbatim(String),
    /// Any other: the compiled template and, for each placeholder, the slot it names.
    Template { template: CompiledTemplate, slots: Vec<usize> },
}

spec fn caches(decl: VariantDecl, r: Rendering) -> bool {
    let t = template_of(decl.attrs@);
    let names = slot_names(decl.shape);
    match r {
        Rendering::Verbatim(s) => decl.shape is Unit && s@ == trim(t),
        Rendering::Template { template, slots } => {
            &&& !(decl.shape is Unit)
            &&& template@ == compiled(t)
            &&& slots@.len() == template.refs@.len()
            &&& forall|j: int|
                0 <= j < slots@.len() ==> slots@[j] == position(names, #[trigger] template.refs@[j].name@)
        },
    }
}

/// A union ready to render: its variants, each with its template compiled once.
#[derive(Debug)]
pub struct DisplayTable {
    variants: Vec<VariantDecl>,
    renderings: Vec<Rendering>,
}

impl DisplayTable {
    pub closed spec fn decls(&self) -> Seq<VariantDecl> {
        self.variants@
    }

    pub closed spec fn wf(&self) -> bool {
        &&& self.renderings@.len() == self.variants@.len()
        &&& well_formed(self.variants@)
        &&& forall|i: int|
            0 <= i < self.variants@.len() ==> caches(self.variants@[i], #[trigger] self.renderings@[i])
    }

    /// Reads the template of every variant. Fails on the first variant, in declaration
    /// order, whose name an earlier variant has, or one of whose placeholders names no slot.
    pub fn new(variants: Vec<VariantDecl>) -> (r: Result<DisplayTable, BuildError>)
        ensures
            r is Ok <==> well_formed(variants@),
            match r {
                Ok(t) => t.wf() && t.decls() == variants@,
                Err(BuildError::DuplicateVariant { name }) => exists|i: int|
                    first_unsound(variants@, i) && duplicate_before(variants@, i)
                        && name@ == variants@[i].name@,
                Err(BuildError::UnresolvedName { variant, name }) => exists|i: int, j: int|
                    {
                        &&& first_unsound(variants@, i)
                        &&& !duplicate_before(variants@, i)
                        &&& variant@ == variants@[i].name@
                        &&& unresolved_at(variants@[i], j)
                        &&& forall|m: int| 0 <= m < j ==> !unresolved_at(variants@[i], m)
                        &&& name@ == compiled(template_of(variants@[i].attrs@)).1[j].0
                    },
            },
    {
        let n = variants.len();
        let mut renderings: Vec<Rendering> = Vec::new();
        let mut i: usize = 0;
        while i < n
            invariant
                i <= n == variants@.len(),
                renderings@.len() == i,
                forall|k: int| 0 <= k < i ==> sound_at(variants@, k),
                forall|k: int| 0 <= k < i ==> caches(variants@[k], #[trigger] renderings@[k]),
            decreases n - i,
        {
            let decl = &variants[i];
            let mut k: usize = 0;
            while k < i
                invariant
                    k <= i < n == variants@.len(),
                    *decl == variants@[i as int],
                    forall|m: int| 0 <= m < i ==> sound_at(variants@, m),
                    forall|m: int| 0 <= m < k ==> variants@[m].name@ != decl.name@,
                decreases i - k,
            {
                if variants[k].name == decl.name {
                    proof {
                        assert(duplicate_before(variants@, i as int));
                        assert(first_unsound(variants@, i as int));
                    }
                    return Err(BuildError::DuplicateVariant { name: decl.name.clone() });
                }
                k = k + 1;
            }
            assert(!duplicate_before(variants@, i as int));
            let t = match doc_template(&decl.attrs) {
                Some(t) => t,
                None => String::new(),
            };
            assert(t@ == template_of(decl.attrs@));
            match &decl.shape {
                Shape::Unit => {
                    renderings.push(Rendering::Verbatim(trimmed(t.as_str())));
                },
                _ => {
                    let c = compile(t.as_str());
                    let names = slot_names_of(&decl.shape);
                    let mut slots: Vec<usize> = Vec::new();
                    let mut j: usize = 0;
                    while j < c.refs.len()
                        invariant
                            j <= c.refs@.len(),
                            c@ == compiled(t@),
                            t@ == template_of(decl.attrs@),
                            strings_view(names@) == slot_names(decl.shape),
                            slots@.len() == j,
                            i < n == variants@.len(),
                            *decl == variants@[i as int],
                            !(decl.shape is Unit),
                            !duplicate_before(variants@, i as int),
                            forall|m: int| 0 <= m < i ==> sound_at(variants@, m),
                            forall|m: int|
                                0 <= m < j ==> slots@[m] == position(
                                    slot_names(decl.shape),
                                    #[trigger] c.refs@[m].name@,
                                ),
                            forall|m: int| 0 <= m < j ==> !unresolved_at(*decl, m),
                        decreases c.refs@.len() - j,
                    {
                        assert(c.refs@[j as int]@ == c@.1[j as int]);
                        match lookup(&names, &c.refs[j].name) {
                            Some(s) => {
                                slots.push(s);
                            },
                            None => {
                                proof {
                                    assert(unresolved_at(*decl, j as int));
                                    assert(!resolves(*decl));
                                    assert(first_unsound(variants@, i as int));
                                }
                                return Err(
                                    BuildError::UnresolvedName {
                                        variant: decl.name.clone(),
                                        name: c.refs[j].name.clone(),
                                    },
                                );
                            },
                        }
                        j = j + 1;
                    }
                    proof {
                        assert forall|m: int| !unresolved_at(*decl, m) by {
                            if 0 <= m < c.refs@.len() {
                            }
                        }
                    }
                    renderings.push(Rendering::Template { template: c, slots });
                },
            }
            assert(sound_at(variants@, i as int));
            i = i + 1;
        }
        Ok(DisplayTable { variants, renderings })
    }

    /// The variants, in declaration order.
    pub fn variants(&self) -> (r: &Vec<VariantDecl>)
        ensures
            r@ == self.decls(),
    {
        &self.variants
    }

    /// Whether the instance belongs to one of the variants and has as many slot values as
    /// that variant has slots: what `render` asks of it.
    pub fn accepts(&self, inst: &Instance) -> (r: bool)
        ensures
            r == accepts(self.decls(), *inst),
    {
        let n = self.variants.len();
        let mut i: usize = 0;
        while i < n
            invariant
                i <= n == self.variants@.len(),
                forall|k: int|
                    0 <= k < i ==> !(#[trigger] self.variants@[k].name@ == inst.variant@
                        && inst.slots@.len() == slot_names(self.variants@[k].shape).len()),
            decreases n - i,
        {
            if self.variants[i].name == inst.variant && slot_count(&self.variants[i].shape)
                == inst.slots.len() {
                return true;
            }
            i = i + 1;
        }
        false
    }

    /// Renders an instance with the template of its variant.
    pub fn render(&self, inst: &Instance) -> (r: String)
        requires
            self.wf(),
            accepts(self.decls(), *inst),
        ensures
            forall|i: int|
                0 <= i < self.decls().len() && #[trigger] self.decls()[i].name@ == inst.variant@
                    ==> r@ == render_variant(self.decls()[i], inst.slots@),
    {
        let n = self.variants.len();
        let mut i: usize = 0;
        while i < n && !(self.variants[i].name == inst.variant)
            invariant
                i <= n == self.variants@.len(),
                forall|k: int| 0 <= k < i ==> self.variants@[k].name@ != inst.variant@,
            decreases n - i,
        {
            i = i + 1;
        }
        let ghost decls = self.variants@;
        proof {
            let k = choose|k: int|
                0 <= k < decls.len() && #[trigger] decls[k].name@ == inst.variant@
                    && inst.slots@.len() == slot_names(decls[k].shape).len();
            if k > i {
                assert(sound_at(decls, k));
                assert(duplicate_before(decls, k));
            }
            assert(k == i);
            assert forall|m: int|
                0 <= m < decls.len() && #[trigger] decls[m].name@ == inst.variant@ implies m == i by {
                if m < i {
                } else if m > i {
                    assert(sound_at(decls, m));
                    assert(duplicate_before(decls, m));
                }
            }
        }
        let decl = &self.variants[i];
        assert(caches(*decl, self.renderings@[i as int]));
        assert(sound_at(decls, i as int));
        match &self.renderings[i] {
            Rendering::Verbatim(s) => s.clone(),
            Rendering::Template { template, slots } => {
                let mut args: Vec<String> = Vec::new();
                let mut j: usize = 0;
                let ghost names = slot_names(decl.shape);
                let ghost cr = compiled(template_of(decl.attrs@)).1;
                while j < template.refs.len()
                    invariant
                        j <= template.refs@.len(),
                        args@.len() == j,
                        caches(*decl, Rendering::Template { template: *template, slots: *slots }),
                        resolves(*decl),
                        !(decl.shape is Unit),
                        names == slot_names(decl.shape),
                        cr == compiled(template_of(decl.attrs@)).1,
                        inst.slots@.len() == names.len(),
                        forall|m: int|
                            0 <= m < j ==> #[trigger] args@[m]@ == rendered(
                                inst.slots@[position(names, cr[m].0) as int],
                                cr[m].1,
                            ),
                    decreases template.refs@.len() - j,
                {
                    assert(template.refs@[j as int]@ == cr[j as int]);
                    assert(!unresolved_at(*decl, j as int));
                    proof {
                        lemma_position_bound(names, cr[j as int].0);
                    }
                    assert(slots@[j as int] == position(names, template.refs@[j as int].name@));
                    let k = slots[j];
                    args.push(render_value(&inst.slots[k], template.refs[j].mode));
                    j = j + 1;
                }
                assert(strings_view(args@) =~= ref_args(names, inst.slots@, cr));
                fill_markers(template.literal.as_str(), &args)
            },
        }
    }
}

} // verus!
