//! What a registry knows, as a mathematical model: which language each
//! extension names, and how a table of definitions builds that up.

use super::model::Syntax;
use super::Definition;
use vstd::prelude::*;

verus! {

/// What a registry knows: the language that each extension names, and the
/// syntax of each language.
pub struct Registry {
    pub names: Map<Seq<char>, Seq<char>>,
    pub languages: Map<Seq<char>, Syntax>,
}

/// `names` with every extension of `extensions` bound to `name`.
pub open spec fn bind(
    names: Map<Seq<char>, Seq<char>>,
    extensions: Seq<Seq<char>>,
    name: Seq<char>,
) -> Map<Seq<char>, Seq<char>>
    decreases extensions.len(),
{
    if extensions.len() == 0 {
        names
    } else {
        bind(names, extensions.drop_last(), name).insert(extensions.last(), name)
    }
}

/// The name of the first definition whose delimiters are not well-formed.
pub open spec fn first_invalid(defs: Seq<(Seq<char>, Definition)>) -> Option<Seq<char>>
    decreases defs.len(),
{
    if defs.len() == 0 {
        None
    } else if !defs[0].1.syntax().well_formed() {
        Some(defs[0].0)
    } else {
        first_invalid(defs.skip(1))
    }
}

impl Registry {
    pub open spec fn empty() -> Registry {
        Registry { names: Map::empty(), languages: Map::empty() }
    }

    /// The registry with one more definition: its extensions now name it, and
    /// it replaces an earlier language of the same name.
    pub open spec fn define(self, name: Seq<char>, def: Definition) -> Registry {
        Registry {
            names: bind(self.names, def.extensions, name),
            languages: self.languages.insert(name, def.syntax()),
        }
    }

    /// The registry of a table's definitions, taken in order.
    pub open spec fn of(defs: Seq<(Seq<char>, Definition)>) -> Registry
        decreases defs.len(),
    {
        if defs.len() == 0 {
            Registry::empty()
        } else {
            Registry::of(defs.drop_last()).define(defs.last().0, defs.last().1)
        }
    }

    /// The syntax that an extension resolves to.
    pub open spec fn lookup(self, ext: Seq<char>) -> Option<Syntax> {
        if self.names.contains_key(ext) && self.languages.contains_key(self.names[ext]) {
            Some(self.languages[self.names[ext]])
        } else {
            None
        }
    }
}

/// Binding extensions to a name touches those extensions and no others.
pub proof fn lemma_bind(
    names: Map<Seq<char>, Seq<char>>,
    extensions: Seq<Seq<char>>,
    name: Seq<char>,
    ext: Seq<char>,
)
    ensures
        extensions.contains(ext) ==> bind(names, extensions, name).contains_key(ext) && bind(
            names,
            extensions,
            name,
        )[ext] == name,
        !extensions.contains(ext) ==> bind(names, extensions, name).contains_key(ext)
            == names.contains_key(ext) && (names.contains_key(ext) ==> bind(
            names,
            extensions,
            name,
        )[ext] == names[ext]),
    decreases extensions.len(),
{
    if extensions.len() > 0 {
        let front = extensions.drop_last();
        lemma_bind(names, front, name, ext);
        if extensions.last() != ext {
            if extensions.contains(ext) {
                let i = choose|i: int| 0 <= i < extensions.len() && extensions[i] == ext;
                assert(front[i] == ext);
            }
            if front.contains(ext) {
                let i = choose|i: int| 0 <= i < front.len() && front[i] == ext;
                assert(extensions[i] == ext);
            }
        }
    }
}

/// Every extension of a registry names a language that the registry holds.
pub proof fn lemma_registry_names_are_defined(defs: Seq<(Seq<char>, Definition)>, ext: Seq<char>)
    ensures
        Registry::of(defs).names.contains_key(ext) ==> Registry::of(defs).languages.contains_key(
            Registry::of(defs).names[ext],
        ),
    decreases defs.len(),
{
    if defs.len() > 0 {
        let before = Registry::of(defs.drop_last());
        lemma_registry_names_are_defined(defs.drop_last(), ext);
        lemma_bind(before.names, defs.last().1.extensions, defs.last().0, ext);
    }
}

/// An extension that no definition lists resolves to nothing.
pub proof fn lemma_registry_unlisted(defs: Seq<(Seq<char>, Definition)>, ext: Seq<char>)
    requires
        forall|i: int| 0 <= i < defs.len() ==> !(#[trigger] defs[i]).1.extensions.contains(ext),
    ensures
        Registry::of(defs).lookup(ext) is None,
    decreases defs.len(),
{
    if defs.len() > 0 {
        let front = defs.drop_last();
        assert forall|i: int| 0 <= i < front.len() implies !(#[trigger] front[i]).1.extensions.contains(
            ext,
        ) by {
            assert(front[i] == defs[i]);
        }
        lemma_registry_unlisted(front, ext);
        lemma_registry_names_are_defined(front, ext);
        assert(defs.last() == defs[defs.len() - 1]);
        lemma_bind(Registry::of(front).names, defs.last().1.extensions, defs.last().0, ext);
    }
}

/// An extension resolves to the syntax of the last definition that lists
/// it, provided that no later definition takes over that language's name.
pub proof fn lemma_registry_resolves(defs: Seq<(Seq<char>, Definition)>, i: int, ext: Seq<char>)
    requires
        0 <= i < defs.len(),
        defs[i].1.extensions.contains(ext),
        forall|j: int|
            i < j < defs.len() ==> !(#[trigger] defs[j]).1.extensions.contains(ext) && defs[j].0
                != defs[i].0,
    ensures
        Registry::of(defs).names.contains_key(ext),
        Registry::of(defs).names[ext] == defs[i].0,
        Registry::of(defs).lookup(ext) == Some(defs[i].1.syntax()),
    decreases defs.len(),
{
    let front = defs.drop_last();
    let last = defs.last();
    assert(last == defs[defs.len() - 1]);
    lemma_bind(Registry::of(front).names, last.1.extensions, last.0, ext);
    if i < defs.len() - 1 {
        assert(front[i] == defs[i]);
        assert forall|j: int| i < j < front.len() implies !(#[trigger] front[j]).1.extensions.contains(
            ext,
        ) && front[j].0 != front[i].0 by {
            assert(front[j] == defs[j]);
        }
        lemma_registry_resolves(front, i, ext);
    }
}

} // verus!
