use vstd::prelude::*;
use vstd::string::StringSliceAdditionalSpecFns;

verus! {

/// Whether two byte strings are equal.
pub fn bytes_eq(a: &[u8], b: &[u8]) -> (r: bool)
    ensures
        r == (a@ == b@),
{
    if a.len() != b.len() {
        return false;
    }
    let mut i: usize = 0;
    while i < a.len()
        invariant
            i <= a@.len(),
            a@.len() == b@.len(),
            forall|k: int| 0 <= k < i ==> a@[k] == b@[k],
        decreases a@.len() - i,
    {
        if a[i] != b[i] {
            return false;
        }
        i = i + 1;
    }
    proof {
        assert(a@ =~= b@);
    }
    true
}

/// The value given last for `name` among `entries`, if any.
pub open spec fn lookup<V>(entries: Seq<(&[u8], V)>, name: Seq<u8>) -> Option<V>
    decreases entries.len(),
{
    if entries.len() == 0 {
        None
    } else if entries.last().0@ == name {
        Some(entries.last().1)
    } else {
        lookup(entries.drop_last(), name)
    }
}

proof fn lemma_lookup_push<V>(entries: Seq<(&[u8], V)>, e: (&[u8], V), name: Seq<u8>)
    ensures
        lookup(entries.push(e), name) == if e.0@ == name {
            Some(e.1)
        } else {
            lookup(entries, name)
        },
{
    assert(entries.push(e).drop_last() =~= entries);
}

/// Where no name occurs twice, giving the entry at `i` a new value for the
/// same name changes the value for that name only.
proof fn lemma_lookup_update<V>(entries: Seq<(&[u8], V)>, i: int, e: (&[u8], V), name: Seq<u8>)
    requires
        0 <= i < entries.len(),
        entries[i].0@ == e.0@,
        forall|j: int, k: int| 0 <= j < k < entries.len() ==> entries[j].0@ != entries[k].0@,
    ensures
        lookup(entries.update(i, e), name) == if e.0@ == name {
            Some(e.1)
        } else {
            lookup(entries, name)
        },
    decreases entries.len(),
{
    let u = entries.update(i, e);
    if i == entries.len() - 1 {
        assert(u.drop_last() =~= entries.drop_last());
        if e.0@ != name {
        }
    } else {
        assert(u.drop_last() =~= entries.drop_last().update(i, e));
        assert(u.last() == entries.last());
        lemma_lookup_update(entries.drop_last(), i, e, name);
        if entries.last().0@ == name {
            assert(entries[i].0@ != entries[entries.len() - 1].0@);
        }
    }
}

/// Values by name, where no name occurs twice. It stands where a hash map
/// keyed by byte strings would: vstd specifies std's `HashMap` only for keys
/// with a view that it knows to be injective, which `&[u8]` keys lack, so
/// lookups on such a map could not be proved; a list of entries can.
pub struct NameMap<'a, V> {
    pub entries: Vec<(&'a [u8], V)>,
}

impl<'a, V> NameMap<'a, V> {
    /// No name occurs twice.
    pub open spec fn wf(&self) -> bool {
        forall|j: int, k: int|
            0 <= j < k < self.entries@.len() ==> self.entries@[j].0@ != self.entries@[k].0@
    }

    /// The value for `name`, if any.
    pub open spec fn spec_get(&self, name: Seq<u8>) -> Option<V> {
        lookup(self.entries@, name)
    }

    /// A map with no names.
    pub fn new() -> (r: Self)
        ensures
            r.wf(),
            forall|name: Seq<u8>| #[trigger] r.spec_get(name) is None,
    {
        NameMap { entries: Vec::new() }
    }

    /// The position of the entry for `name`, if any.
    fn position(&self, name: &[u8]) -> (r: Option<usize>)
        ensures
            match r {
                Some(i) => i < self.entries@.len() && self.entries@[i as int].0@ == name@,
                None => forall|k: int|
                    0 <= k < self.entries@.len() ==> #[trigger] self.entries@[k].0@ != name@,
            },
    {
        let mut i: usize = 0;
        while i < self.entries.len()
            invariant
                i <= self.entries@.len(),
                forall|k: int| 0 <= k < i ==> #[trigger] self.entries@[k].0@ != name@,
            decreases self.entries@.len() - i,
        {
            if bytes_eq(self.entries[i].0, name) {
                return Some(i);
            }
            i = i + 1;
        }
        None
    }

    /// Sets the value for `name`, in place of the one it had, if any.
    pub fn insert(&mut self, name: &'a [u8], value: V)
        requires
            old(self).wf(),
        ensures
            final(self).wf(),
            forall|n: Seq<u8>|
                #[trigger] final(self).spec_get(n) == if n == name@ {
                    Some(value)
                } else {
                    old(self).spec_get(n)
                },
    {
        match self.position(name) {
            Some(i) => {
                proof {
                    assert forall|n: Seq<u8>| #[trigger]
                        lookup(self.entries@.update(i as int, (name, value)), n) == if n == name@ {
                            Some(value)
                        } else {
                            lookup(self.entries@, n)
                        } by {
                        lemma_lookup_update(self.entries@, i as int, (name, value), n);
                    }
                }
                self.entries.set(i, (name, value));
            },
            None => {
                proof {
                    assert forall|n: Seq<u8>| #[trigger]
                        lookup(self.entries@.push((name, value)), n) == if n == name@ {
                            Some(value)
                        } else {
                            lookup(self.entries@, n)
                        } by {
                        lemma_lookup_push(self.entries@, (name, value), n);
                    }
                }
                self.entries.push((name, value));
            },
        }
    }

    /// The value for `name`, if any.
    pub fn get(&self, name: &[u8]) -> (r: Option<&V>)
        requires
            self.wf(),
        ensures
            match self.spec_get(name@) {
                Some(v) => r matches Some(x) && *x == v,
                None => r is None,
            },
    {
        match self.position(name) {
            Some(i) => {
                proof {
                    lemma_lookup_unique(self.entries@, i as int, name@);
                }
                Some(&self.entries[i].1)
            },
            None => {
                proof {
                    lemma_lookup_absent(self.entries@, name@);
                }
                None
            },
        }
    }
}

/// Where no name occurs twice, the value for the name of an entry is that
/// entry's.
proof fn lemma_lookup_unique<V>(entries: Seq<(&[u8], V)>, i: int, name: Seq<u8>)
    requires
        0 <= i < entries.len(),
        entries[i].0@ == name,
        forall|j: int, k: int| 0 <= j < k < entries.len() ==> entries[j].0@ != entries[k].0@,
    ensures
        lookup(entries, name) == Some(entries[i].1),
    decreases entries.len(),
{
    if i < entries.len() - 1 {
        assert(entries[i].0@ != entries[entries.len() - 1].0@);
        assert(entries.drop_last()[i] == entries[i]);
        lemma_lookup_unique(entries.drop_last(), i, name);
    }
}

/// A name that no entry has has no value.
proof fn lemma_lookup_absent<V>(entries: Seq<(&[u8], V)>, name: Seq<u8>)
    requires
        forall|k: int| 0 <= k < entries.len() ==> #[trigger] entries[k].0@ != name,
    ensures
        lookup(entries, name) is None,
    decreases entries.len(),
{
    if entries.len() > 0 {
        assert(entries.last() == entries[entries.len() - 1]);
        assert forall|k: int| 0 <= k < entries.drop_last().len() implies #[trigger] entries.drop_last()[k].0@
            != name by {
            assert(entries.drop_last()[k] == entries[k]);
        }
        lemma_lookup_absent(entries.drop_last(), name);
    }
}

/// Names, where no name occurs twice.
pub struct NameSet<'a> {
    pub map: NameMap<'a, ()>,
}

impl<'a> NameSet<'a> {
    /// No name occurs twice.
    pub open spec fn wf(&self) -> bool {
        self.map.wf()
    }

    pub open spec fn spec_contains(&self, name: Seq<u8>) -> bool {
        self.map.spec_get(name) is Some
    }

    /// A set with no names.
    pub fn new() -> (r: Self)
        ensures
            r.wf(),
            forall|name: Seq<u8>| !#[trigger] r.spec_contains(name),
    {
        NameSet { map: NameMap::new() }
    }

    /// Adds `name`.
    pub fn insert(&mut self, name: &'a [u8])
        requires
            old(self).wf(),
        ensures
            final(self).wf(),
            forall|n: Seq<u8>| #[trigger]
                final(self).spec_contains(n) == (n == name@ || old(self).spec_contains(n)),
    {
        self.map.insert(name, ());
    }

    /// Whether `name` is in the set.
    pub fn contains(&self, name: &[u8]) -> (r: bool)
        requires
            self.wf(),
        ensures
            r == self.spec_contains(name@),
    {
        self.map.get(name).is_some()
    }
}

/// An extension that a call can name.
pub enum Extension<'a> {
    /// Renders the call as an element.
    ElementMapper(Box<ExtensionElementMapper<'a>>),
    /// Another name of the extension `to`.
    Alias { to: &'a [u8] },
}

/// An extension that renders a call as an element whose content and
/// attributes come from the arguments.
pub struct ExtensionElementMapper<'a> {
    /// Callers make sure that the name lets no markup in.
    pub tag_name: &'a [u8],
    /// Where present, the element has a `variant` attribute with this value.
    pub variant: Option<&'a [u8]>,
    pub parameters: NameMap<'a, ParameterWrapper<'a, ExtensionElementMapperParameter<'a>>>,
    pub required_parameters: NameSet<'a>,
    pub verbatim_parameters: NameMap<
        'a,
        ParameterWrapper<'a, ExtensionElementMapperVerbatimParameter<'a>>,
    >,
    pub required_verbatim_parameters: NameSet<'a>,
}

/// A parameter, or another name of one.
pub enum ParameterWrapper<'a, T> {
    Real(T),
    Alias(&'a [u8]),
}

/// Where a normal argument goes.
pub struct ExtensionElementMapperParameter<'a> {
    pub mapping_to: ExtensionElementMapperParameterMappingTo<'a>,
}

pub enum ExtensionElementMapperParameterMappingTo<'a> {
    /// Into a `div` in the slot of this name.
    NamedSlot(&'a [u8]),
    /// Into the content itself.
    UnnamedSlot,
}

/// Where a verbatim argument goes.
pub struct ExtensionElementMapperVerbatimParameter<'a> {
    pub mapping_to: ExtensionElementMapperVerbatimParameterMappingTo<'a>,
}

pub enum ExtensionElementMapperVerbatimParameterMappingTo<'a> {
    /// Into the attribute of this name.
    Attribute(&'a [u8]),
}

/// The parameter that `name` stands for in `params`, with its own name:
/// itself, or the one that it is another name of.
pub open spec fn real_parameter<T>(params: NameMap<ParameterWrapper<T>>, name: Seq<u8>) -> Option<
    (Seq<u8>, T),
> {
    match params.spec_get(name) {
        Some(ParameterWrapper::Real(p)) => Some((name, p)),
        Some(ParameterWrapper::Alias(to)) => match params.spec_get(to@) {
            Some(ParameterWrapper::Real(p)) => Some((to@, p)),
            _ => None,
        },
        None => None,
    }
}

/// Another name for `name` in `params`, if any, names no other name: other
/// names are one level deep.
pub open spec fn alias_is_direct<T>(params: NameMap<ParameterWrapper<T>>, name: Seq<u8>) -> bool {
    params.spec_get(name) matches Some(ParameterWrapper::Alias(to)) ==> !(params.spec_get(
        to@,
    ) matches Some(ParameterWrapper::Alias(_)))
}

impl<'a> ExtensionElementMapper<'a> {
    /// The normal parameter that `name` stands for, with its own name.
    pub fn get_real_parameter<'b>(&'b self, name: &'b [u8]) -> (r: Option<
        (&'b [u8], &'b ExtensionElementMapperParameter<'a>),
    >)
        requires
            self.parameters.wf(),
            alias_is_direct(self.parameters, name@),
        ensures
            match real_parameter(self.parameters, name@) {
                Some((n, p)) => r matches Some((rn, rp)) && rn@ == n && *rp == p,
                None => r is None,
            },
    {
        self._get_real_parameter(name, false)
    }

    fn _get_real_parameter<'b>(&'b self, name: &'b [u8], is_in_recursion: bool) -> (r: Option<
        (&'b [u8], &'b ExtensionElementMapperParameter<'a>),
    >)
        requires
            self.parameters.wf(),
            alias_is_direct(self.parameters, name@),
            is_in_recursion ==> !(self.parameters.spec_get(name@) matches Some(
                ParameterWrapper::Alias(_),
            )),
        ensures
            match real_parameter(self.parameters, name@) {
                Some((n, p)) => r matches Some((rn, rp)) && rn@ == n && *rp == p,
                None => r is None,
            },
        decreases (if is_in_recursion {
            0int
        } else {
            1int
        }),
    {
        let param = match self.parameters.get(name) {
            Some(param) => param,
            None => {
                return None;
            },
        };
        match param {
            ParameterWrapper::Real(param) => Some((name, param)),
            ParameterWrapper::Alias(real_name) => {
                if !is_in_recursion {
                    self._get_real_parameter(real_name, true)
                } else {
                    proof {
                        assert(false);
                    }
                    None
                }
            },
        }
    }

    /// The verbatim parameter that `name` stands for, with its own name.
    pub fn get_real_verbatim_parameter<'b>(&'b self, name: &'b [u8]) -> (r: Option<
        (&'b [u8], &'b ExtensionElementMapperVerbatimParameter<'a>),
    >)
        requires
            self.verbatim_parameters.wf(),
            alias_is_direct(self.verbatim_parameters, name@),
        ensures
            match real_parameter(self.verbatim_parameters, name@) {
                Some((n, p)) => r matches Some((rn, rp)) && rn@ == n && *rp == p,
                None => r is None,
            },
    {
        self._get_real_verbatim_parameter(name, false)
    }

    fn _get_real_verbatim_parameter<'b>(&'b self, name: &'b [u8], is_in_recursion: bool) -> (r:
        Option<(&'b [u8], &'b ExtensionElementMapperVerbatimParameter<'a>)>)
        requires
            self.verbatim_parameters.wf(),
            alias_is_direct(self.verbatim_parameters, name@),
            is_in_recursion ==> !(self.verbatim_parameters.spec_get(name@) matches Some(
                ParameterWrapper::Alias(_),
            )),
        ensures
            match real_parameter(self.verbatim_parameters, name@) {
                Some((n, p)) => r matches Some((rn, rp)) && rn@ == n && *rp == p,
                None => r is None,
            },
        decreases (if is_in_recursion {
            0int
        } else {
            1int
        }),
    {
        let param = match self.verbatim_parameters.get(name) {
            Some(param) => param,
            None => {
                return None;
            },
        };
        match param {
            ParameterWrapper::Real(param) => Some((name, param)),
            ParameterWrapper::Alias(real_name) => {
                if !is_in_recursion {
                    self._get_real_verbatim_parameter(real_name, true)
                } else {
                    proof {
                        assert(false);
                    }
                    None
                }
            },
        }
    }
}

/// Strings with distinct characters have distinct bytes.
proof fn lemma_distinct_names(names: Seq<&str>)
    requires
        forall|j: int, k: int| 0 <= j < k < names.len() ==> names[j]@ != names[k]@,
    ensures
        forall|j: int, k: int|
            0 <= j < k < names.len() ==> #[trigger] names[j].spec_bytes()
                != #[trigger] names[k].spec_bytes(),
{
    assert forall|j: int, k: int| 0 <= j < k < names.len() implies #[trigger] names[j].spec_bytes()
        != #[trigger] names[k].spec_bytes() by {
        vstd::utf8::encode_utf8_decode_utf8(names[j]@);
        vstd::utf8::encode_utf8_decode_utf8(names[k]@);
    }
}

/// The extension named `name` in `map` is an element mapper that writes
/// elements of `tag`, with the variant `variant`.
pub open spec fn names_element_mapper(
    map: NameMap<Extension>,
    name: Seq<u8>,
    tag: Seq<u8>,
    variant: Option<Seq<u8>>,
) -> bool {
    map.spec_get(name) matches Some(Extension::ElementMapper(m)) && m.tag_name@ == tag && match variant {
        Some(v) => m.variant matches Some(x) && x@ == v,
        None => m.variant is None,
    }
}

/// The extension named `name` in `map` is another name of `to`.
pub open spec fn names_alias(map: NameMap<Extension>, name: Seq<u8>, to: Seq<u8>) -> bool {
    map.spec_get(name) matches Some(Extension::Alias { to: t }) && t@ == to
}

/// The content of the element comes from the first unnamed normal argument,
/// which is required: that is the one normal parameter, and the one
/// required.
pub open spec fn takes_content(m: ExtensionElementMapper) -> bool {
    &&& m.parameters.spec_get("1".spec_bytes()) matches Some(ParameterWrapper::Real(p))
        && p.mapping_to is UnnamedSlot
    &&& forall|n: Seq<u8>| #[trigger] m.parameters.spec_get(n) is Some ==> n == "1".spec_bytes()
    &&& forall|n: Seq<u8>| #[trigger] m.required_parameters.spec_contains(n) == (n == "1".spec_bytes())
    &&& forall|n: Seq<u8>| !#[trigger] m.required_verbatim_parameters.spec_contains(n)
}

/// The element mapper has no parameters at all.
pub open spec fn takes_nothing(m: ExtensionElementMapper) -> bool {
    &&& forall|n: Seq<u8>| #[trigger] m.parameters.spec_get(n) is None
    &&& forall|n: Seq<u8>| #[trigger] m.verbatim_parameters.spec_get(n) is None
    &&& forall|n: Seq<u8>| !#[trigger] m.required_parameters.spec_contains(n)
    &&& forall|n: Seq<u8>| !#[trigger] m.required_verbatim_parameters.spec_contains(n)
}

/// The names of the demo block extensions.
pub open spec fn demo_block_names() -> Seq<Seq<u8>> {
    seq![
        "Div".spec_bytes(),
        "Collapse".spec_bytes(),
        "折叠".spec_bytes(),
        "Note".spec_bytes(),
        "注".spec_bytes(),
        "Tip".spec_bytes(),
        "提示".spec_bytes(),
        "Important".spec_bytes(),
        "重要".spec_bytes(),
        "Warning".spec_bytes(),
        "警告".spec_bytes(),
        "Caution".spec_bytes(),
        "当心".spec_bytes(),
    ]
}

/// The extension named `name` in `map` is an element mapper whose content
/// comes from the first unnamed normal argument, which is required.
pub open spec fn names_content_mapper(map: NameMap<Extension>, name: Seq<u8>) -> bool {
    map.spec_get(name) matches Some(Extension::ElementMapper(m)) && takes_content(*m)
}

/// The verbatim parameters are `title` (also named `标题`) and `open` (also
/// named `展开`), which go to the attributes `title` and `open-by-default`.
pub open spec fn has_collapse_attributes(m: ExtensionElementMapper) -> bool {
    let vp = m.verbatim_parameters;
    &&& forall|n: Seq<u8>|
        #[trigger] vp.spec_get(n) is Some ==> n == "title".spec_bytes() || n == "标题".spec_bytes()
            || n == "open".spec_bytes() || n == "展开".spec_bytes()
    &&& vp.spec_get("title".spec_bytes()) matches Some(ParameterWrapper::Real(p))
        && p.mapping_to->Attribute_0@ == "title".spec_bytes()
    &&& vp.spec_get("标题".spec_bytes()) matches Some(ParameterWrapper::Alias(to)) && to@
        == "title".spec_bytes()
    &&& vp.spec_get("open".spec_bytes()) matches Some(ParameterWrapper::Real(p))
        && p.mapping_to->Attribute_0@ == "open-by-default".spec_bytes()
    &&& vp.spec_get("展开".spec_bytes()) matches Some(ParameterWrapper::Alias(to)) && to@
        == "open".spec_bytes()
}

/// An element mapper of `tag` with the variant `variant` and no parameters.
fn new_plain_element_mapper(tag_name: &'static [u8], variant: Option<&'static [u8]>) -> (r: Extension<
    'static,
>)
    ensures
        r matches Extension::ElementMapper(m) && m.tag_name == tag_name && m.variant == variant
            && m.parameters.wf() && m.verbatim_parameters.wf() && m.required_parameters.wf()
            && m.required_verbatim_parameters.wf() && takes_nothing(*m),
{
    Extension::ElementMapper(
        Box::new(
            ExtensionElementMapper {
                tag_name,
                variant,
                parameters: NameMap::new(),
                required_parameters: NameSet::new(),
                verbatim_parameters: NameMap::new(),
                required_verbatim_parameters: NameSet::new(),
            },
        ),
    )
}

/// An element mapper of `tag` with the variant `variant`, whose content comes
/// from the first unnamed normal argument, which is required.
fn new_content_element_mapper(tag_name: &'static [u8], variant: Option<&'static [u8]>) -> (r: Extension<
    'static,
>)
    ensures
        r matches Extension::ElementMapper(m) && m.tag_name == tag_name && m.variant == variant
            && takes_content(*m) && m.parameters.wf() && m.verbatim_parameters.wf()
            && m.required_parameters.wf() && m.required_verbatim_parameters.wf()
            && forall|n: Seq<u8>| #[trigger] m.verbatim_parameters.spec_get(n) is None,
{
    let mut parameters = NameMap::new();
    parameters.insert(
        "1".as_bytes(),
        ParameterWrapper::Real(
            ExtensionElementMapperParameter {
                mapping_to: ExtensionElementMapperParameterMappingTo::UnnamedSlot,
            },
        ),
    );
    let mut required_parameters = NameSet::new();
    required_parameters.insert("1".as_bytes());
    Extension::ElementMapper(
        Box::new(
            ExtensionElementMapper {
                tag_name,
                variant,
                parameters,
                required_parameters,
                verbatim_parameters: NameMap::new(),
                required_verbatim_parameters: NameSet::new(),
            },
        ),
    )
}

/// The `Collapse` extension: an element whose content comes from the first
/// unnamed normal argument, with the verbatim parameters `title` (also named
/// `标题`) and `open` (also named `展开`) as its attributes.
fn new_collapse() -> (r: Extension<'static>)
    ensures
        r matches Extension::ElementMapper(m) && m.tag_name@ == "x-collapse".spec_bytes()
            && m.variant is None && takes_content(*m) && has_collapse_attributes(*m)
            && m.parameters.wf()
            && m.verbatim_parameters.wf() && m.required_parameters.wf()
            && m.required_verbatim_parameters.wf(),
{
    let mut verbatim_parameters = NameMap::new();
    verbatim_parameters.insert(
        "title".as_bytes(),
        ParameterWrapper::Real(
            ExtensionElementMapperVerbatimParameter {
                mapping_to: ExtensionElementMapperVerbatimParameterMappingTo::Attribute(
                    "title".as_bytes(),
                ),
            },
        ),
    );
    verbatim_parameters.insert("标题".as_bytes(), ParameterWrapper::Alias("title".as_bytes()));
    verbatim_parameters.insert(
        "open".as_bytes(),
        ParameterWrapper::Real(
            ExtensionElementMapperVerbatimParameter {
                mapping_to: ExtensionElementMapperVerbatimParameterMappingTo::Attribute(
                    "open-by-default".as_bytes(),
                ),
            },
        ),
    );
    verbatim_parameters.insert("展开".as_bytes(), ParameterWrapper::Alias("open".as_bytes()));
    proof {
        reveal_strlit("title");
        reveal_strlit("标题");
        reveal_strlit("open");
        reveal_strlit("展开");
        let names = seq!["title", "标题", "open", "展开"];
        lemma_distinct_names(names);
        assert(names[0] == "title" && names[1] == "标题" && names[2] == "open" && names[3] == "展开");
    }
    let mut parameters = NameMap::new();
    parameters.insert(
        "1".as_bytes(),
        ParameterWrapper::Real(
            ExtensionElementMapperParameter {
                mapping_to: ExtensionElementMapperParameterMappingTo::UnnamedSlot,
            },
        ),
    );
    let mut required_parameters = NameSet::new();
    required_parameters.insert("1".as_bytes());
    Extension::ElementMapper(
        Box::new(
            ExtensionElementMapper {
                tag_name: "x-collapse".as_bytes(),
                variant: None,
                parameters,
                required_parameters,
                verbatim_parameters,
                required_verbatim_parameters: NameSet::new(),
            },
        ),
    )
}

/// The block extensions for trying the library out: `Div`, `Collapse` (also
/// named `折叠`), and the callouts `Note`, `Tip`, `Important`, `Warning` and
/// `Caution` (each with a name in Chinese too).
pub fn new_demo_block_extension_map_for_test() -> (r: NameMap<'static, Extension<'static>>)
    ensures
        r.wf(),
        forall|n: Seq<u8>| #[trigger] r.spec_get(n) is Some == demo_block_names().contains(n),
        r.spec_get("Div".spec_bytes()) matches Some(Extension::ElementMapper(m)) && takes_nothing(*m),
        names_element_mapper(r, "Div".spec_bytes(), "div".spec_bytes(), None),
        names_element_mapper(r, "Collapse".spec_bytes(), "x-collapse".spec_bytes(), None),
        names_content_mapper(r, "Collapse".spec_bytes()),
        r.spec_get("Collapse".spec_bytes()) matches Some(Extension::ElementMapper(m))
            && has_collapse_attributes(*m),
        names_alias(r, "折叠".spec_bytes(), "Collapse".spec_bytes()),
        names_element_mapper(r, "Note".spec_bytes(), "x-callout".spec_bytes(), Some("note".spec_bytes())),
        names_content_mapper(r, "Note".spec_bytes()),
        names_alias(r, "注".spec_bytes(), "Note".spec_bytes()),
        names_element_mapper(r, "Tip".spec_bytes(), "x-callout".spec_bytes(), Some("tip".spec_bytes())),
        names_content_mapper(r, "Tip".spec_bytes()),
        names_alias(r, "提示".spec_bytes(), "Tip".spec_bytes()),
        names_element_mapper(
            r,
            "Important".spec_bytes(),
            "x-callout".spec_bytes(),
            Some("important".spec_bytes()),
        ),
        names_content_mapper(r, "Important".spec_bytes()),
        names_alias(r, "重要".spec_bytes(), "Important".spec_bytes()),
        names_element_mapper(
            r,
            "Warning".spec_bytes(),
            "x-callout".spec_bytes(),
            Some("warning".spec_bytes()),
        ),
        names_content_mapper(r, "Warning".spec_bytes()),
        names_alias(r, "警告".spec_bytes(), "Warning".spec_bytes()),
        names_element_mapper(
            r,
            "Caution".spec_bytes(),
            "x-callout".spec_bytes(),
            Some("caution".spec_bytes()),
        ),
        names_content_mapper(r, "Caution".spec_bytes()),
        names_alias(r, "当心".spec_bytes(), "Caution".spec_bytes()),
{
    let mut map: NameMap<'static, Extension<'static>> = NameMap::new();
    map.insert("Div".as_bytes(), new_plain_element_mapper("div".as_bytes(), None));
    map.insert("Collapse".as_bytes(), new_collapse());
    map.insert("折叠".as_bytes(), Extension::Alias { to: "Collapse".as_bytes() });
    map.insert("Note".as_bytes(), new_content_element_mapper("x-callout".as_bytes(), Some("note".as_bytes())));
    map.insert("注".as_bytes(), Extension::Alias { to: "Note".as_bytes() });
    map.insert("Tip".as_bytes(), new_content_element_mapper("x-callout".as_bytes(), Some("tip".as_bytes())));
    map.insert("提示".as_bytes(), Extension::Alias { to: "Tip".as_bytes() });
    map.insert(
        "Important".as_bytes(),
        new_content_element_mapper("x-callout".as_bytes(), Some("important".as_bytes())),
    );
    map.insert("重要".as_bytes(), Extension::Alias { to: "Important".as_bytes() });
    map.insert(
        "Warning".as_bytes(),
        new_content_element_mapper("x-callout".as_bytes(), Some("warning".as_bytes())),
    );
    map.insert("警告".as_bytes(), Extension::Alias { to: "Warning".as_bytes() });
    map.insert(
        "Caution".as_bytes(),
        new_content_element_mapper("x-callout".as_bytes(), Some("caution".as_bytes())),
    );
    map.insert("当心".as_bytes(), Extension::Alias { to: "Caution".as_bytes() });
    proof {
        reveal_strlit("Div");
        reveal_strlit("Collapse");
        reveal_strlit("折叠");
        reveal_strlit("Note");
        reveal_strlit("注");
        reveal_strlit("Tip");
        reveal_strlit("提示");
        reveal_strlit("Important");
        reveal_strlit("重要");
        reveal_strlit("Warning");
        reveal_strlit("警告");
        reveal_strlit("Caution");
        reveal_strlit("当心");
        let names = seq![
            "Div",
            "Collapse",
            "折叠",
            "Note",
            "注",
            "Tip",
            "提示",
            "Important",
            "重要",
            "Warning",
            "警告",
            "Caution",
            "当心",
        ];
        lemma_distinct_names(names);
        assert(names[0] == "Div" && names[1] == "Collapse" && names[2] == "折叠" && names[3] == "Note"
            && names[4] == "注" && names[5] == "Tip" && names[6] == "提示" && names[7] == "Important"
            && names[8] == "重要" && names[9] == "Warning" && names[10] == "警告" && names[11]
            == "Caution" && names[12] == "当心");
        assert forall|n: Seq<u8>| #[trigger] map.spec_get(n) is Some == demo_block_names().contains(n) by {
            let d = demo_block_names();
            if map.spec_get(n) is Some {
                if n == d[0] { assert(d.contains(n)); }
                else if n == d[1] { assert(d.contains(n)); }
                else if n == d[2] { assert(d.contains(n)); }
                else if n == d[3] { assert(d.contains(n)); }
                else if n == d[4] { assert(d.contains(n)); }
                else if n == d[5] { assert(d.contains(n)); }
                else if n == d[6] { assert(d.contains(n)); }
                else if n == d[7] { assert(d.contains(n)); }
                else if n == d[8] { assert(d.contains(n)); }
                else if n == d[9] { assert(d.contains(n)); }
                else if n == d[10] { assert(d.contains(n)); }
                else if n == d[11] { assert(d.contains(n)); }
                else if n == d[12] { assert(d.contains(n)); }
            }
            if d.contains(n) {
                let k = choose|k: int| 0 <= k < d.len() && d[k] == n;
                assert(0 <= k < 13);
            }
        }
    }
    map
}

/// The inline extensions for trying the library out: `Span`, and
/// `ScratchOff` (also named `刮开`).
pub fn new_demo_inline_extension_map_for_test() -> (r: NameMap<'static, Extension<'static>>)
    ensures
        r.wf(),
        names_element_mapper(r, "Span".spec_bytes(), "span".spec_bytes(), None),
        names_element_mapper(r, "ScratchOff".spec_bytes(), "x-scratch-off".spec_bytes(), None),
        names_alias(r, "刮开".spec_bytes(), "ScratchOff".spec_bytes()),
        r.spec_get("ScratchOff".spec_bytes()) matches Some(Extension::ElementMapper(m))
            && takes_content(*m),
{
    let mut map: NameMap<'static, Extension<'static>> = NameMap::new();
    map.insert("Span".as_bytes(), new_plain_element_mapper("span".as_bytes(), None));
    map.insert("ScratchOff".as_bytes(), new_content_element_mapper("x-scratch-off".as_bytes(), None));
    map.insert("刮开".as_bytes(), Extension::Alias { to: "ScratchOff".as_bytes() });
    proof {
        reveal_strlit("Span");
        reveal_strlit("ScratchOff");
        reveal_strlit("刮开");
        let names = seq!["Span", "ScratchOff", "刮开"];
        lemma_distinct_names(names);
        assert(names[0] == "Span" && names[1] == "ScratchOff" && names[2] == "刮开");
    }
    map
}

} // verus!
