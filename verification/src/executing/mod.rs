use vstd::prelude::*;
use vstd::string::StringSliceAdditionalSpecFns;

use crate::compiling::{
    events_within, exits_matched, is_call_event, lemma_compile_call_free, spec_compile,
    view_call, view_item, view_items, ArgumentKey, BlockCall, CompiledItem, Outcome, SpecCall,
    SpecItem, SpecKey,
};
use crate::executing::extensions::{
    alias_is_direct, bytes_eq, real_parameter, Extension, ExtensionElementMapper,
    ExtensionElementMapperParameterMappingTo, ExtensionElementMapperVerbatimParameterMappingTo,
    NameMap, NameSet,
};
use crate::executing::renderer::{view_stack, Renderer, SpecEntry, StackEntryBox};
use vstd::slice::slice_subrange;
use crate::compiling::Event;
use crate::types::BlockId;
use crate::utils::render::{
    attribute_views, closing_tag, decimal, opening_tag, render_closing_tag, render_empty_element,
    render_eopening_tag, write_usize,
};

pub mod extensions;
pub mod renderer;

pub use renderer::TagNameMap;

verus! {

/// What is called: a template to transclude, or an extension.
#[derive(Clone, Copy)]
pub enum CallType {
    Transclusion,
    Extension,
}

/// The name of a kind of call, as the error element names it.
pub open spec fn call_type_bytes(t: CallType) -> Seq<u8> {
    match t {
        CallType::Transclusion => "transclusion".spec_bytes(),
        CallType::Extension => "extension".spec_bytes(),
    }
}

impl CallType {
    pub fn as_bytes(&self) -> (r: &'static [u8])
        ensures
            r@ == call_type_bytes(*self),
    {
        match self {
            CallType::Transclusion => "transclusion".as_bytes(),
            CallType::Extension => "extension".as_bytes(),
        }
    }
}

/// The parameters that a call got wrong, each named once, in the order in
/// which they were met: required ones left out, unknown ones, and ones given
/// more than once.
pub struct SpecBadParameters {
    pub missing: Seq<Seq<u8>>,
    pub unknown: Seq<Seq<u8>>,
    pub duplicated: Seq<Seq<u8>>,
}

/// `names` with `name` added at the end, unless it is there already.
pub open spec fn add_name(names: Seq<Seq<u8>>, name: Seq<u8>) -> Seq<Seq<u8>> {
    if names.contains(name) {
        names
    } else {
        names.push(name)
    }
}

/// No parameter got wrong yet.
pub open spec fn no_bad_parameters() -> SpecBadParameters {
    SpecBadParameters { missing: Seq::empty(), unknown: Seq::empty(), duplicated: Seq::empty() }
}

/// The parameters got wrong so far, with `name` among the unknown ones.
pub open spec fn with_unknown(bad: Option<SpecBadParameters>, name: Seq<u8>) -> Option<
    SpecBadParameters,
> {
    let b = match bad {
        Some(b) => b,
        None => no_bad_parameters(),
    };
    Some(SpecBadParameters { missing: b.missing, unknown: add_name(b.unknown, name), duplicated: b.duplicated })
}

/// The parameters got wrong so far, with `name` among the ones given more
/// than once.
pub open spec fn with_duplicated(bad: Option<SpecBadParameters>, name: Seq<u8>) -> Option<
    SpecBadParameters,
> {
    let b = match bad {
        Some(b) => b,
        None => no_bad_parameters(),
    };
    Some(SpecBadParameters { missing: b.missing, unknown: b.unknown, duplicated: add_name(b.duplicated, name) })
}

/// The parameters got wrong so far, with `names` as the missing ones.
pub open spec fn with_missing(bad: Option<SpecBadParameters>, names: Seq<Seq<u8>>) -> Option<
    SpecBadParameters,
> {
    let b = match bad {
        Some(b) => b,
        None => no_bad_parameters(),
    };
    Some(SpecBadParameters { missing: names, unknown: b.unknown, duplicated: b.duplicated })
}

/// What a byte of a parameter name becomes in an error value: `~`, `,` and
/// `;` are escaped as `~0`, `~1` and `~2`.
pub open spec fn escaped_parameter_byte(b: u8) -> Seq<u8> {
    if b == 126u8 {
        "~0".spec_bytes()
    } else if b == 44u8 {
        "~1".spec_bytes()
    } else if b == 59u8 {
        "~2".spec_bytes()
    } else {
        seq![b]
    }
}

/// A parameter name, escaped for an error value.
pub open spec fn escaped_parameter(name: Seq<u8>) -> Seq<u8>
    decreases name.len(),
{
    if name.len() == 0 {
        Seq::empty()
    } else {
        escaped_parameter(name.drop_last()) + escaped_parameter_byte(name.last())
    }
}

/// Each name, escaped, after `mark` and before a `,`.
pub open spec fn parameter_list(mark: Seq<u8>, names: Seq<Seq<u8>>) -> Seq<u8>
    decreases names.len(),
{
    if names.len() == 0 {
        Seq::empty()
    } else {
        parameter_list(mark, names.drop_last()) + mark + escaped_parameter(names.last())
            + ",".spec_bytes()
    }
}

/// The parameters got wrong as one string: the missing ones marked `!`, the
/// unknown ones `?`, those given more than once `=`, separated by `,`.
pub open spec fn bad_parameters_bytes(b: SpecBadParameters) -> Seq<u8> {
    let all = parameter_list("!".spec_bytes(), b.missing) + parameter_list("?".spec_bytes(), b.unknown)
        + parameter_list("=".spec_bytes(), b.duplicated);
    if all.len() > 0 {
        all.drop_last()
    } else {
        all
    }
}

/// The bytes of the parameters got wrong, if any.
pub open spec fn optional_bad_bytes(b: Option<SpecBadParameters>) -> Seq<u8> {
    match b {
        Some(b) => bad_parameters_bytes(b),
        None => Seq::empty(),
    }
}

/// Why a call could not be rendered.
pub enum SpecCallError {
    /// Calls of this kind are not rendered yet.
    Todo,
    /// Nothing of the name is known.
    UnknownCallee(Seq<u8>),
    /// Parameters were got wrong, among the normal and the verbatim ones.
    BadParameters(Option<SpecBadParameters>, Option<SpecBadParameters>),
}

/// The name of the error, as the error element carries it.
pub open spec fn error_type_bytes(e: SpecCallError) -> Seq<u8> {
    match e {
        SpecCallError::Todo => "TODO".spec_bytes(),
        SpecCallError::UnknownCallee(_) => "UnknownCallee".spec_bytes(),
        SpecCallError::BadParameters(_, _) => "BadParameters".spec_bytes(),
    }
}

/// What the error element carries about the error besides its name: the
/// unknown name, or the parameters got wrong, the normal ones and the
/// verbatim ones separated by `;`.
pub open spec fn error_value_bytes(e: SpecCallError) -> Option<Seq<u8>> {
    match e {
        SpecCallError::Todo => None,
        SpecCallError::UnknownCallee(name) => Some(name),
        SpecCallError::BadParameters(normal, verbatim) => Some(
            optional_bad_bytes(normal) + ";".spec_bytes() + optional_bad_bytes(verbatim),
        ),
    }
}

/// The names as sequences of bytes.
pub open spec fn names_view(names: Seq<Vec<u8>>) -> Seq<Seq<u8>> {
    names.map_values(|n: Vec<u8>| n@)
}

/// Adds `name` at the end of `names`, unless it is there already.
fn add_name_to(names: &mut Vec<Vec<u8>>, name: &[u8])
    ensures
        names_view(final(names)@) == add_name(names_view(old(names)@), name@),
{
    let mut i: usize = 0;
    while i < names.len()
        invariant
            names@ == old(names)@,
            i <= names@.len(),
            forall|k: int| 0 <= k < i ==> #[trigger] names@[k]@ != name@,
        decreases names@.len() - i,
    {
        if bytes_eq(names[i].as_slice(), name) {
            proof {
                assert(names_view(names@)[i as int] == name@);
            }
            return;
        }
        i = i + 1;
    }
    proof {
        assert forall|k: int| 0 <= k < names_view(names@).len() implies names_view(names@)[k]
            != name@ by {
            assert(names@[k]@ != name@);
        }
    }
    let mut v: Vec<u8> = Vec::new();
    v.extend_from_slice(name);
    proof {
        assert(v@ =~= name@);
    }
    names.push(v);
    proof {
        assert(names_view(names@) =~= names_view(old(names)@).push(name@));
    }
}

/// The parameters that a call got wrong.
pub struct CallErrorBadParameters {
    pub missing: Vec<Vec<u8>>,
    pub unknown: Vec<Vec<u8>>,
    pub duplicated: Vec<Vec<u8>>,
}

/// What the parameters got wrong stand for.
pub open spec fn view_bad(b: CallErrorBadParameters) -> SpecBadParameters {
    SpecBadParameters {
        missing: names_view(b.missing@),
        unknown: names_view(b.unknown@),
        duplicated: names_view(b.duplicated@),
    }
}

/// What the parameters got wrong, if any, stand for.
pub open spec fn view_bad_opt(b: Option<CallErrorBadParameters>) -> Option<SpecBadParameters> {
    match b {
        Some(b) => Some(view_bad(b)),
        None => None,
    }
}

impl CallErrorBadParameters {
    /// No parameter got wrong.
    pub fn new() -> (r: Self)
        ensures
            view_bad(r) == no_bad_parameters(),
    {
        let r = CallErrorBadParameters { missing: Vec::new(), unknown: Vec::new(), duplicated: Vec::new() };
        proof {
            assert(names_view(r.missing@) =~= Seq::<Seq<u8>>::empty());
            assert(names_view(r.unknown@) =~= Seq::<Seq<u8>>::empty());
            assert(names_view(r.duplicated@) =~= Seq::<Seq<u8>>::empty());
        }
        r
    }

    /// The parameters got wrong as one string: see `bad_parameters_bytes`.
    pub fn to_vec(&self) -> (r: Vec<u8>)
        ensures
            r@ == bad_parameters_bytes(view_bad(*self)),
    {
        let mut buf: Vec<u8> = Vec::new();
        Self::render_list(&mut buf, "!".as_bytes(), &self.missing);
        Self::render_list(&mut buf, "?".as_bytes(), &self.unknown);
        Self::render_list(&mut buf, "=".as_bytes(), &self.duplicated);
        proof {
            let b = view_bad(*self);
            assert(buf@ =~= parameter_list("!".spec_bytes(), b.missing) + parameter_list(
                "?".spec_bytes(),
                b.unknown,
            ) + parameter_list("=".spec_bytes(), b.duplicated));
        }
        buf.pop();
        proof {
            let all = parameter_list("!".spec_bytes(), view_bad(*self).missing) + parameter_list(
                "?".spec_bytes(),
                view_bad(*self).unknown,
            ) + parameter_list("=".spec_bytes(), view_bad(*self).duplicated);
            if all.len() > 0 {
                assert(buf@ =~= all.drop_last());
            }
        }
        buf
    }

    /// Appends each name, escaped, after `mark` and before a `,`.
    fn render_list(buf: &mut Vec<u8>, mark: &[u8], names: &Vec<Vec<u8>>)
        ensures
            final(buf)@ == old(buf)@ + parameter_list(mark@, names_view(names@)),
    {
        let mut k: usize = 0;
        while k < names.len()
            invariant
                k <= names@.len(),
                buf@ == old(buf)@ + parameter_list(mark@, names_view(names@).subrange(0, k as int)),
            decreases names@.len() - k,
        {
            buf.extend_from_slice(mark);
            Self::render_escaped_parameter(buf, names[k].as_slice());
            buf.extend_from_slice(",".as_bytes());
            proof {
                let s = names_view(names@).subrange(0, k + 1);
                assert(s.drop_last() =~= names_view(names@).subrange(0, k as int));
                assert(s.last() == names@[k as int]@);
                assert(buf@ =~= old(buf)@ + parameter_list(mark@, s));
            }
            k = k + 1;
        }
        proof {
            assert(names_view(names@).subrange(0, k as int) =~= names_view(names@));
        }
    }

    /// Appends a parameter name, escaped: see `escaped_parameter`.
    fn render_escaped_parameter(buf: &mut Vec<u8>, param: &[u8])
        ensures
            final(buf)@ == old(buf)@ + escaped_parameter(param@),
    {
        let mut i: usize = 0;
        while i < param.len()
            invariant
                i <= param@.len(),
                buf@ == old(buf)@ + escaped_parameter(param@.subrange(0, i as int)),
            decreases param@.len() - i,
        {
            let c = param[i];
            if c == 126u8 {
                buf.extend_from_slice("~0".as_bytes());
            } else if c == 44u8 {
                buf.extend_from_slice("~1".as_bytes());
            } else if c == 59u8 {
                buf.extend_from_slice("~2".as_bytes());
            } else {
                buf.push(c);
            }
            proof {
                let s = param@.subrange(0, i + 1);
                assert(s.drop_last() =~= param@.subrange(0, i as int));
                assert(s.last() == c);
                assert(buf@ =~= old(buf)@ + escaped_parameter(s));
            }
            i = i + 1;
        }
        proof {
            assert(param@.subrange(0, i as int) =~= param@);
        }
    }
}

/// Why a call could not be rendered.
pub enum CallError<'a> {
    Todo,
    UnknownCallee(&'a [u8]),
    BadParameters {
        normal: Option<CallErrorBadParameters>,
        verbatim: Option<CallErrorBadParameters>,
    },
}

/// What the error stands for.
pub open spec fn view_error(e: CallError) -> SpecCallError {
    match e {
        CallError::Todo => SpecCallError::Todo,
        CallError::UnknownCallee(name) => SpecCallError::UnknownCallee(name@),
        CallError::BadParameters { normal, verbatim } => SpecCallError::BadParameters(
            view_bad_opt(normal),
            view_bad_opt(verbatim),
        ),
    }
}

impl<'a> CallError<'a> {
    /// The name of the error, and what the error element carries besides.
    pub fn destruct(self) -> (r: (&'static [u8], Option<Vec<u8>>))
        ensures
            r.0@ == error_type_bytes(view_error(self)),
            match error_value_bytes(view_error(self)) {
                Some(v) => r.1 matches Some(x) && x@ == v,
                None => r.1 is None,
            },
    {
        match self {
            CallError::Todo => ("TODO".as_bytes(), None),
            CallError::UnknownCallee(name) => {
                let mut v: Vec<u8> = Vec::new();
                v.extend_from_slice(name);
                proof {
                    assert(v@ =~= name@);
                }
                ("UnknownCallee".as_bytes(), Some(v))
            },
            CallError::BadParameters { normal, verbatim } => {
                let mut buf: Vec<u8> = Vec::new();
                match &normal {
                    Some(b) => {
                        let v = b.to_vec();
                        buf.extend_from_slice(v.as_slice());
                    },
                    None => {},
                }
                buf.extend_from_slice(";".as_bytes());
                match &verbatim {
                    Some(b) => {
                        let v = b.to_vec();
                        buf.extend_from_slice(v.as_slice());
                    },
                    None => {},
                }
                proof {
                    assert(buf@ =~= optional_bad_bytes(view_bad_opt(normal)) + ";".spec_bytes()
                        + optional_bad_bytes(view_bad_opt(verbatim)));
                }
                ("BadParameters".as_bytes(), Some(buf))
            },
        }
    }
}

/// Options of a new executor.
pub struct NewExecutorOptions<'a> {
    pub tag_name_map: &'a TagNameMap<'a>,
    /// The extensions that calls at block level can name.
    pub block_extension_map: &'a NameMap<'a, Extension<'a>>,
    /// Whether the elements of blocks carry their block ids.
    pub should_include_block_ids: bool,
}

/// Renders a compiled document as HTML: its runs of events through the
/// renderer, and its calls of extensions as the elements that the
/// extensions map them to.
pub struct Executor<'a> {
    pub tag_name_map: &'a TagNameMap<'a>,
    pub block_extension_map: &'a NameMap<'a, Extension<'a>>,
    pub with_block_id: bool,
    pub renderer: Renderer<'a>,
}

impl<'a> Executor<'a> {
    /// The renderer has the executor's options, and no name occurs twice in
    /// the extension map.
    pub open spec fn wf(&self) -> bool {
        &&& self.renderer.tag_name_map == self.tag_name_map
        &&& self.renderer.with_block_id == self.with_block_id
        &&& self.block_extension_map.wf()
    }

    pub fn new(opts: &NewExecutorOptions<'a>) -> (r: Self)
        requires
            opts.block_extension_map.wf(),
        ensures
            r.wf(),
            r.tag_name_map == opts.tag_name_map,
            r.block_extension_map == opts.block_extension_map,
            r.with_block_id == opts.should_include_block_ids,
    {
        let renderer = Renderer::new(
            renderer::NewRendererOptions {
                tag_name_map: opts.tag_name_map,
                should_include_block_ids: opts.should_include_block_ids,
            },
        );
        Executor {
            tag_name_map: opts.tag_name_map,
            block_extension_map: opts.block_extension_map,
            with_block_id: opts.should_include_block_ids,
            renderer,
        }
    }

    /// The attributes of the element that stands for a call that could not
    /// be rendered.
    pub open spec fn call_error_attributes(
        &self,
        call_type: Seq<u8>,
        name: Seq<u8>,
        error: SpecCallError,
        id: BlockId,
    ) -> Seq<(Seq<u8>, Seq<u8>)> {
        let base = seq![
            ("call-type".spec_bytes(), call_type),
            ("call-name".spec_bytes(), name),
            ("error-type".spec_bytes(), error_type_bytes(error)),
        ];
        let with_value = match error_value_bytes(error) {
            Some(v) => base.push(("error-value".spec_bytes(), v)),
            None => base,
        };
        if self.with_block_id {
            with_value.push(("data-block-id".spec_bytes(), decimal(id.value as nat)))
        } else {
            with_value
        }
    }

    /// The element that stands for a call that could not be rendered.
    pub open spec fn spec_call_error(
        &self,
        call_type: Seq<u8>,
        name: Seq<u8>,
        error: SpecCallError,
        id: BlockId,
    ) -> Seq<u8> {
        let tag = self.tag_name_map.block_call_error@;
        opening_tag(tag, self.call_error_attributes(call_type, name, error, id)) + closing_tag(tag)
    }

    /// Appends the element that stands for a call that could not be rendered.
    fn render_call_error(
        &self,
        buf: &mut Vec<u8>,
        call_type: CallType,
        call_name: &[u8],
        error: CallError,
        block_id: BlockId,
    )
        ensures
            final(buf)@ == old(buf)@ + self.spec_call_error(
                call_type_bytes(call_type),
                call_name@,
                view_error(error),
                block_id,
            ),
    {
        let ghost e = view_error(error);
        let (error_type, error_value) = error.destruct();
        let mut id_buf: Vec<u8> = Vec::new();
        if self.with_block_id {
            write_usize(&mut id_buf, block_id.value());
        }
        let mut attrs: Vec<(&[u8], &[u8])> = Vec::new();
        attrs.push(("call-type".as_bytes(), call_type.as_bytes()));
        attrs.push(("call-name".as_bytes(), call_name));
        attrs.push(("error-type".as_bytes(), error_type));
        let ghost base = attrs@;
        match &error_value {
            Some(v) => {
                attrs.push(("error-value".as_bytes(), v.as_slice()));
            },
            None => {},
        }
        let ghost with_value = attrs@;
        if self.with_block_id {
            attrs.push(("data-block-id".as_bytes(), id_buf.as_slice()));
        }
        proof {
            let expected = self.call_error_attributes(call_type_bytes(call_type), call_name@, e, block_id);
            assert(attribute_views(base) =~= seq![
                ("call-type".spec_bytes(), call_type_bytes(call_type)),
                ("call-name".spec_bytes(), call_name@),
                ("error-type".spec_bytes(), error_type_bytes(e)),
            ]);
            assert(attribute_views(attrs@) =~= expected);
        }
        render_empty_element(buf, self.tag_name_map.block_call_error, attrs.as_slice());
    }
}

/// The bytes of an argument key: its name, or its position in decimal.
pub open spec fn key_bytes(key: SpecKey) -> Seq<u8> {
    match key {
        SpecKey::Named(name) => name,
        SpecKey::Unnamed(index) => decimal(index),
    }
}

/// The names among `entries` that are not among `seen`, each once, in the
/// order of `entries`.
pub open spec fn missing_names(entries: Seq<(&[u8], ())>, seen: Seq<Seq<u8>>) -> Seq<Seq<u8>>
    decreases entries.len(),
{
    if entries.len() == 0 {
        Seq::empty()
    } else {
        let rest = missing_names(entries.drop_last(), seen);
        let name = entries.last().0@;
        if seen.contains(name) {
            rest
        } else {
            add_name(rest, name)
        }
    }
}

/// Where the normal arguments of a call have brought the element: the names
/// of the parameters met, the parameters got wrong, and the content.
pub struct ArgsState {
    pub seen: Seq<Seq<u8>>,
    pub bad: Option<SpecBadParameters>,
    pub content: Seq<u8>,
}

/// Where the verbatim arguments of a call have brought the element: the
/// names of the parameters met, the parameters got wrong, and the
/// attributes.
pub struct VerbatimArgsState {
    pub seen: Seq<Seq<u8>>,
    pub bad: Option<SpecBadParameters>,
    pub attrs: Seq<(Seq<u8>, Seq<u8>)>,
}

/// The verbatim argument `key`, `value` of a call on the element mapper `m`:
/// an unknown parameter, one given again, or, while nothing is got wrong, an
/// attribute; `None` where a map is not well formed or names another name of
/// another name.
pub open spec fn spec_verbatim_argument(
    m: ExtensionElementMapper,
    key: SpecKey,
    value: Seq<u8>,
    st: VerbatimArgsState,
) -> Option<VerbatimArgsState> {
    let name = key_bytes(key);
    if !(m.verbatim_parameters.wf() && alias_is_direct(m.verbatim_parameters, name)) {
        None
    } else {
        match real_parameter(m.verbatim_parameters, name) {
            None => Some(VerbatimArgsState { seen: st.seen, bad: with_unknown(st.bad, name), attrs: st.attrs }),
            Some((own, p)) => if st.seen.contains(own) {
                Some(VerbatimArgsState { seen: st.seen, bad: with_duplicated(st.bad, own), attrs: st.attrs })
            } else if st.bad is Some {
                Some(VerbatimArgsState { seen: st.seen.push(own), bad: st.bad, attrs: st.attrs })
            } else {
                Some(
                    VerbatimArgsState {
                        seen: st.seen.push(own),
                        bad: st.bad,
                        attrs: st.attrs.push((p.mapping_to->Attribute_0@, value)),
                    },
                )
            },
        }
    }
}

/// The verbatim arguments of a call from the `j`-th on.
pub open spec fn spec_verbatim_args(
    m: ExtensionElementMapper,
    args: Seq<(SpecKey, Seq<u8>)>,
    j: int,
    st: VerbatimArgsState,
) -> Option<VerbatimArgsState>
    decreases args.len() - j,
{
    if 0 <= j < args.len() {
        match spec_verbatim_argument(m, args[j].0, args[j].1, st) {
            Some(next) => spec_verbatim_args(m, args, j + 1, next),
            None => None,
        }
    } else {
        Some(st)
    }
}

/// Nothing met yet among the normal arguments.
pub open spec fn no_args() -> ArgsState {
    ArgsState { seen: Seq::empty(), bad: None, content: Seq::empty() }
}

/// Nothing met yet among the verbatim arguments.
pub open spec fn no_verbatim_args() -> VerbatimArgsState {
    VerbatimArgsState { seen: Seq::empty(), bad: None, attrs: Seq::empty() }
}

impl<'a> Executor<'a> {
    /// Rendering a compiled document: what is written, or `None` where a run
    /// of events cannot be rendered or lies outside the events, or where an
    /// extension map is not well formed.
    pub open spec fn spec_execute(&self, input: Seq<u8>, parsed: Seq<Event>, items: Seq<SpecItem>) -> Option<
        Seq<u8>,
    > {
        self.spec_items(input, parsed, items, 0, Seq::empty())
    }

    /// Rendering the items from the `k`-th on, with the open elements
    /// `stack`.
    pub open spec fn spec_items(
        &self,
        input: Seq<u8>,
        parsed: Seq<Event>,
        items: Seq<SpecItem>,
        k: int,
        stack: Seq<SpecEntry>,
    ) -> Option<Seq<u8>>
        decreases items, items.len() - k,
    {
        if 0 <= k < items.len() {
            match self.spec_item(input, parsed, items[k], stack) {
                Some((out, after)) => match self.spec_items(input, parsed, items, k + 1, after) {
                    Some(rest) => Some(out + rest),
                    None => None,
                },
                None => None,
            }
        } else {
            Some(Seq::empty())
        }
    }

    /// Rendering one item with the open elements `stack`: what is written,
    /// and the open elements after it.
    pub open spec fn spec_item(
        &self,
        input: Seq<u8>,
        parsed: Seq<Event>,
        item: SpecItem,
        stack: Seq<SpecEntry>,
    ) -> Option<(Seq<u8>, Seq<SpecEntry>)>
        decreases item, 0int,
    {
        match item {
            SpecItem::SimpleEvents(s, e) => if 0 <= s <= e <= parsed.len() {
                self.renderer.spec_render_events(input, parsed.subrange(s, e), 0, stack)
            } else {
                None
            },
            SpecItem::BlockTransclusion(call) => Some(
                (
                    self.spec_call_error(
                        call_type_bytes(CallType::Transclusion),
                        call.name,
                        SpecCallError::Todo,
                        call.block_id,
                    ),
                    stack,
                ),
            ),
            SpecItem::BlockExtension(call) => match self.spec_extension(input, parsed, call) {
                Some(out) => Some((out, stack)),
                None => None,
            },
        }
    }

    /// Rendering a call of an extension: the element that the extension
    /// maps it to, or an error element where no extension has its name.
    pub open spec fn spec_extension(&self, input: Seq<u8>, parsed: Seq<Event>, call: SpecCall) -> Option<
        Seq<u8>,
    >
        decreases call, call.arguments.len() + 2,
    {
        match self.block_extension_map.spec_get(call.name) {
            None => Some(
                self.spec_call_error(
                    call_type_bytes(CallType::Extension),
                    call.name,
                    SpecCallError::UnknownCallee(call.name),
                    call.block_id,
                ),
            ),
            Some(ext) => {
                let target = match ext {
                    Extension::Alias { to } => self.block_extension_map.spec_get(to@),
                    Extension::ElementMapper(_) => Some(ext),
                };
                match target {
                    Some(Extension::ElementMapper(m)) => self.spec_element_mapper(input, parsed, *m, call),
                    _ => None,
                }
            },
        }
    }

    /// Rendering a call on the element mapper `m`: its element, or an error
    /// element where parameters were got wrong.
    pub open spec fn spec_element_mapper(
        &self,
        input: Seq<u8>,
        parsed: Seq<Event>,
        m: ExtensionElementMapper,
        call: SpecCall,
    ) -> Option<Seq<u8>>
        decreases call, call.arguments.len() + 1,
    {
        match self.spec_args(input, parsed, m, call, 0, no_args()) {
            None => None,
            Some(st) => match spec_verbatim_args(m, call.verbatim_arguments, 0, no_verbatim_args()) {
                None => None,
                Some(vst) => Some(self.spec_mapped(m, call, st, vst)),
            },
        }
    }

    /// The element of a call on `m`, once its arguments have brought it to
    /// `st` and `vst`.
    pub open spec fn spec_mapped(
        &self,
        m: ExtensionElementMapper,
        call: SpecCall,
        st: ArgsState,
        vst: VerbatimArgsState,
    ) -> Seq<u8> {
        let missing = missing_names(m.required_parameters.map.entries@, st.seen);
        let bad = if missing.len() > 0 {
            with_missing(st.bad, missing)
        } else {
            st.bad
        };
        let vmissing = missing_names(m.required_verbatim_parameters.map.entries@, vst.seen);
        let vbad = if vmissing.len() > 0 {
            with_missing(vst.bad, vmissing)
        } else {
            vst.bad
        };
        if bad is Some || vbad is Some {
            self.spec_call_error(
                call_type_bytes(CallType::Extension),
                call.name,
                SpecCallError::BadParameters(bad, vbad),
                call.block_id,
            )
        } else {
            let with_variant = match m.variant {
                Some(v) => vst.attrs.push(("variant".spec_bytes(), v@)),
                None => vst.attrs,
            };
            let attrs = if self.with_block_id {
                with_variant.push(("data-block-id".spec_bytes(), decimal(call.block_id.value as nat)))
            } else {
                with_variant
            };
            opening_tag(m.tag_name@, attrs) + st.content + closing_tag(m.tag_name@)
        }
    }

    /// The normal arguments of a call on `m` from the `j`-th on.
    pub open spec fn spec_args(
        &self,
        input: Seq<u8>,
        parsed: Seq<Event>,
        m: ExtensionElementMapper,
        call: SpecCall,
        j: int,
        st: ArgsState,
    ) -> Option<ArgsState>
        decreases call, call.arguments.len() - j,
    {
        if 0 <= j < call.arguments.len() {
            match self.spec_argument(input, parsed, m, call.arguments[j].0, call.arguments[j].1, st) {
                Some(next) => self.spec_args(input, parsed, m, call, j + 1, next),
                None => None,
            }
        } else {
            Some(st)
        }
    }

    /// The normal argument `key`, `value` of a call on `m`: an unknown
    /// parameter, one given again, or, while nothing is got wrong, content,
    /// in a slot where the parameter names one; `None` where a map is not
    /// well formed or names another name of another name, or where the value
    /// cannot be rendered.
    pub open spec fn spec_argument(
        &self,
        input: Seq<u8>,
        parsed: Seq<Event>,
        m: ExtensionElementMapper,
        key: SpecKey,
        value: Seq<SpecItem>,
        st: ArgsState,
    ) -> Option<ArgsState>
        decreases value, value.len() + 1,
    {
        let name = key_bytes(key);
        if !(m.parameters.wf() && alias_is_direct(m.parameters, name)) {
            None
        } else {
            match real_parameter(m.parameters, name) {
                None => Some(ArgsState { seen: st.seen, bad: with_unknown(st.bad, name), content: st.content }),
                Some((own, p)) => if st.seen.contains(own) {
                    Some(ArgsState { seen: st.seen, bad: with_duplicated(st.bad, own), content: st.content })
                } else if st.bad is Some {
                    Some(ArgsState { seen: st.seen.push(own), bad: st.bad, content: st.content })
                } else {
                    match self.spec_items(input, parsed, value, 0, Seq::empty()) {
                        Some(out) => Some(
                            ArgsState {
                                seen: st.seen.push(own),
                                bad: st.bad,
                                content: st.content + match p.mapping_to {
                                    ExtensionElementMapperParameterMappingTo::NamedSlot(slot) => opening_tag(
                                        "div".spec_bytes(),
                                        seq![("slot".spec_bytes(), slot@)],
                                    ) + out + closing_tag("div".spec_bytes()),
                                    ExtensionElementMapperParameterMappingTo::UnnamedSlot => out,
                                },
                            },
                        ),
                        None => None,
                    }
                },
            }
        }
    }
}

/// Whether `name` is among `names`.
fn contains_name(names: &Vec<Vec<u8>>, name: &[u8]) -> (r: bool)
    ensures
        r == names_view(names@).contains(name@),
{
    let mut i: usize = 0;
    while i < names.len()
        invariant
            i <= names@.len(),
            forall|k: int| 0 <= k < i ==> #[trigger] names@[k]@ != name@,
        decreases names@.len() - i,
    {
        if bytes_eq(names[i].as_slice(), name) {
            proof {
                assert(names_view(names@)[i as int] == name@);
            }
            return true;
        }
        i = i + 1;
    }
    proof {
        assert forall|k: int| 0 <= k < names_view(names@).len() implies names_view(names@)[k]
            != name@ by {
            assert(names@[k]@ != name@);
        }
    }
    false
}

/// Counts `name` among the unknown parameters.
fn add_unknown(bad: &mut Option<CallErrorBadParameters>, name: &[u8])
    ensures
        view_bad_opt(*final(bad)) == with_unknown(view_bad_opt(*old(bad)), name@),
{
    let mut b = match bad.take() {
        Some(b) => b,
        None => CallErrorBadParameters::new(),
    };
    add_name_to(&mut b.unknown, name);
    *bad = Some(b);
}

/// Counts `name` among the parameters given more than once.
fn add_duplicated(bad: &mut Option<CallErrorBadParameters>, name: &[u8])
    ensures
        view_bad_opt(*final(bad)) == with_duplicated(view_bad_opt(*old(bad)), name@),
{
    let mut b = match bad.take() {
        Some(b) => b,
        None => CallErrorBadParameters::new(),
    };
    add_name_to(&mut b.duplicated, name);
    *bad = Some(b);
}

/// Sets the missing parameters to `names`.
fn set_missing(bad: &mut Option<CallErrorBadParameters>, names: Vec<Vec<u8>>)
    ensures
        view_bad_opt(*final(bad)) == with_missing(view_bad_opt(*old(bad)), names_view(names@)),
{
    let mut b = match bad.take() {
        Some(b) => b,
        None => CallErrorBadParameters::new(),
    };
    b.missing = names;
    *bad = Some(b);
}

/// The required names that are not among `seen`: see `missing_names`.
fn missing_from(required: &NameSet, seen: &Vec<Vec<u8>>) -> (r: Vec<Vec<u8>>)
    ensures
        names_view(r@) == missing_names(required.map.entries@, names_view(seen@)),
{
    let entries = &required.map.entries;
    let mut missing: Vec<Vec<u8>> = Vec::new();
    let mut i: usize = 0;
    proof {
        assert(entries@.subrange(0, 0) =~= Seq::<(&[u8], ())>::empty());
        assert(names_view(missing@) =~= Seq::<Seq<u8>>::empty());
    }
    while i < entries.len()
        invariant
            i <= entries@.len(),
            names_view(missing@) == missing_names(entries@.subrange(0, i as int), names_view(seen@)),
        decreases entries@.len() - i,
    {
        let name = entries[i].0;
        if !contains_name(seen, name) {
            add_name_to(&mut missing, name);
        }
        proof {
            let s = entries@.subrange(0, i + 1);
            assert(s.drop_last() =~= entries@.subrange(0, i as int));
            assert(s.last() == entries@[i as int]);
        }
        i = i + 1;
    }
    proof {
        assert(entries@.subrange(0, i as int) =~= entries@);
    }
    missing
}

/// What the normal arguments met so far stand for.
pub open spec fn args_state(seen: Seq<Vec<u8>>, bad: Option<CallErrorBadParameters>, content: Seq<u8>) -> ArgsState {
    ArgsState { seen: names_view(seen), bad: view_bad_opt(bad), content }
}

/// What the verbatim arguments met so far stand for.
pub open spec fn verbatim_args_state(
    seen: Seq<Vec<u8>>,
    bad: Option<CallErrorBadParameters>,
    attrs: Seq<(&[u8], &[u8])>,
) -> VerbatimArgsState {
    VerbatimArgsState { seen: names_view(seen), bad: view_bad_opt(bad), attrs: attribute_views(attrs) }
}

impl<'a> Executor<'a> {
    /// Renders the compiled document `compiled`, whose items stand for the
    /// events `parsed` over `input`. Its runs must lie within the events and
    /// be renderable in turn (as `Renderer::render_events` asks), and the
    /// extension maps well formed; on anything else the renderer would have
    /// no defined result, and the call is not admitted.
    pub fn execute(
        &self,
        buf: &mut Vec<u8>,
        input: &'a [u8],
        parsed: &[Event],
        compiled: &[CompiledItem<'a>],
    )
        requires
            self.wf(),
            events_within(parsed@, input@.len()),
            self.spec_execute(input@, parsed@, view_items(compiled@)) is Some,
        ensures
            final(buf)@ == old(buf)@ + self.spec_execute(input@, parsed@, view_items(compiled@))->0,
        decreases view_items(compiled@), 0int,
    {
        let ghost items = view_items(compiled@);
        let ghost total = self.spec_items(input@, parsed@, items, 0, Seq::empty());
        let ghost mut done: Seq<u8> = Seq::empty();
        let mut stack: Vec<StackEntryBox<'a>> = Vec::new();
        let mut k: usize = 0;
        proof {
            assert(view_stack(stack@) =~= Seq::<SpecEntry>::empty());
            assert(done + total->0 =~= total->0);
            assert(buf@ =~= old(buf)@ + done);
        }
        while k < compiled.len()
            invariant
                k <= compiled@.len(),
                items == view_items(compiled@),
                self.wf(),
                events_within(parsed@, input@.len()),
                buf@ == old(buf)@ + done,
                self.spec_items(input@, parsed@, items, k as int, view_stack(stack@)) matches Some(
                    rest,
                ) && total == Some(done + rest),
            decreases compiled@.len() - k,
        {
            let ghost before = buf@;
            let ghost here = self.spec_item(input@, parsed@, items[k as int], view_stack(stack@));
            proof {
                assert(items[k as int] == view_item(compiled@[k as int]));
            }
            match &compiled[k] {
                CompiledItem::SimpleEvents(range) => {
                    let evs = slice_subrange(parsed, range.start, range.end);
                    proof {
                        assert forall|i: int| 0 <= i < evs@.len() implies crate::compiling::event_within(
                            #[trigger] evs@[i],
                            input@.len(),
                        ) by {
                            assert(evs@[i] == parsed@[range.start + i]);
                        }
                    }
                    self.renderer.render_events(buf, input, evs, &mut stack);
                },
                CompiledItem::BlockTransclusion(call) => {
                    self.render_call_error(buf, CallType::Transclusion, call.name, CallError::Todo, call.block_id);
                },
                CompiledItem::BlockExtension(call) => {
                    proof {
                        assert(decreases_to!(items => items[k as int]));
                    }
                    self.render_block_extension(buf, input, parsed, call);
                },
            }
            proof {
                let (out, after) = here.unwrap();
                assert(buf@ =~= before + out);
                assert(view_stack(stack@) == after);
                let rest = self.spec_items(input@, parsed@, items, k + 1, after)->0;
                assert(done + (out + rest) =~= (done + out) + rest);
                done = done + out;
                assert(buf@ =~= old(buf)@ + done);
            }
            k = k + 1;
        }
        proof {
            assert(done + Seq::<u8>::empty() =~= done);
        }
    }

    /// Renders a call of an extension at block level.
    fn render_block_extension(
        &self,
        buf: &mut Vec<u8>,
        input: &'a [u8],
        parsed: &[Event],
        call: &BlockCall<'a>,
    )
        requires
            self.wf(),
            events_within(parsed@, input@.len()),
            self.spec_extension(input@, parsed@, view_call(*call)) is Some,
        ensures
            final(buf)@ == old(buf)@ + self.spec_extension(input@, parsed@, view_call(*call))->0,
        decreases view_call(*call), 2int,
    {
        match self.block_extension_map.get(call.name) {
            None => {
                self.render_call_error(
                    buf,
                    CallType::Extension,
                    call.name,
                    CallError::UnknownCallee(call.name),
                    call.block_id,
                );
            },
            Some(ext) => {
                let target = match ext {
                    Extension::Alias { to } => self.block_extension_map.get(to),
                    Extension::ElementMapper(_) => Some(ext),
                };
                match target {
                    Some(Extension::ElementMapper(m)) => {
                        self.render_element_mapper_extension(buf, input, parsed, call, &**m);
                    },
                    _ => {
                        proof {
                            assert(false);
                        }
                    },
                }
            },
        }
    }

    /// Renders a call on the element mapper `ext`.
    fn render_element_mapper_extension(
        &self,
        buf: &mut Vec<u8>,
        input: &'a [u8],
        parsed: &[Event],
        call: &BlockCall<'a>,
        ext: &ExtensionElementMapper<'a>,
    )
        requires
            self.wf(),
            events_within(parsed@, input@.len()),
            self.spec_element_mapper(input@, parsed@, *ext, view_call(*call)) is Some,
        ensures
            final(buf)@ == old(buf)@ + self.spec_element_mapper(input@, parsed@, *ext, view_call(*call))->0,
        decreases view_call(*call), 1int,
    {
        let mut seen: Vec<Vec<u8>> = Vec::new();
        let mut seen_verbatim: Vec<Vec<u8>> = Vec::new();
        let mut attrs: Vec<(&[u8], &[u8])> = Vec::new();
        let mut content: Vec<u8> = Vec::new();
        let mut bad: Option<CallErrorBadParameters> = None;
        let mut bad_verbatim: Option<CallErrorBadParameters> = None;
        proof {
            assert(names_view(seen@) =~= Seq::<Seq<u8>>::empty());
            assert(names_view(seen_verbatim@) =~= Seq::<Seq<u8>>::empty());
            assert(attribute_views(attrs@) =~= Seq::<(Seq<u8>, Seq<u8>)>::empty());
            assert(content@ =~= Seq::<u8>::empty());
            assert(args_state(seen@, bad, content@) == no_args());
            assert(verbatim_args_state(seen_verbatim@, bad_verbatim, attrs@) == no_verbatim_args());
        }
        self.process_arguments(&mut content, input, parsed, call, ext, &mut seen, &mut bad);
        Self::process_verbatim_arguments(&mut attrs, call, ext, &mut seen_verbatim, &mut bad_verbatim);
        self.render_mapped(buf, call, ext, &content, &seen, bad, &seen_verbatim, bad_verbatim, attrs);
    }

    /// Takes in the normal arguments of a call on `ext`.
    fn process_arguments(
        &self,
        content: &mut Vec<u8>,
        input: &'a [u8],
        parsed: &[Event],
        call: &BlockCall<'a>,
        ext: &ExtensionElementMapper<'a>,
        seen: &mut Vec<Vec<u8>>,
        bad: &mut Option<CallErrorBadParameters>,
    )
        requires
            self.wf(),
            events_within(parsed@, input@.len()),
            self.spec_args(
                input@,
                parsed@,
                *ext,
                view_call(*call),
                0,
                args_state(old(seen)@, *old(bad), old(content)@),
            ) is Some,
        ensures
            Some(args_state(final(seen)@, *final(bad), final(content)@)) == self.spec_args(
                input@,
                parsed@,
                *ext,
                view_call(*call),
                0,
                args_state(old(seen)@, *old(bad), old(content)@),
            ),
        decreases view_call(*call), 0int,
    {
        let ghost c = view_call(*call);
        let ghost all = self.spec_args(input@, parsed@, *ext, c, 0, args_state(seen@, *bad, content@));
        let mut j: usize = 0;
        while j < call.arguments.len()
            invariant
                j <= call.arguments@.len(),
                c == view_call(*call),
                self.wf(),
                events_within(parsed@, input@.len()),
                self.spec_args(input@, parsed@, *ext, c, j as int, args_state(seen@, *bad, content@))
                    == all,
                all is Some,
            decreases call.arguments@.len() - j,
        {
            let arg = &call.arguments[j];
            proof {
                assert(c.arguments[j as int] == (arg.0.view_key(), view_items(arg.1@)));
                assert(decreases_to!(c => c.arguments[j as int].1));
            }
            self.process_element_mapper_extension_argument(content, input, parsed, ext, &arg.0, &arg.1, seen, bad);
            j = j + 1;
        }
    }

    /// Takes in the verbatim arguments of a call on `ext`.
    fn process_verbatim_arguments<'b>(
        attrs: &mut Vec<(&'b [u8], &'b [u8])>,
        call: &'b BlockCall<'a>,
        ext: &'b ExtensionElementMapper<'a>,
        seen: &mut Vec<Vec<u8>>,
        bad: &mut Option<CallErrorBadParameters>,
    )
        requires
            spec_verbatim_args(
                *ext,
                view_call(*call).verbatim_arguments,
                0,
                verbatim_args_state(old(seen)@, *old(bad), old(attrs)@),
            ) is Some,
        ensures
            Some(verbatim_args_state(final(seen)@, *final(bad), final(attrs)@)) == spec_verbatim_args(
                *ext,
                view_call(*call).verbatim_arguments,
                0,
                verbatim_args_state(old(seen)@, *old(bad), old(attrs)@),
            ),
    {
        let ghost c = view_call(*call);
        let ghost all = spec_verbatim_args(*ext, c.verbatim_arguments, 0, verbatim_args_state(seen@, *bad, attrs@));
        let mut j: usize = 0;
        while j < call.verbatim_arguments.len()
            invariant
                j <= call.verbatim_arguments@.len(),
                c == view_call(*call),
                spec_verbatim_args(
                    *ext,
                    c.verbatim_arguments,
                    j as int,
                    verbatim_args_state(seen@, *bad, attrs@),
                ) == all,
                all is Some,
            decreases call.verbatim_arguments@.len() - j,
        {
            let arg = &call.verbatim_arguments[j];
            proof {
                assert(c.verbatim_arguments[j as int] == (arg.0.view_key(), arg.1@));
            }
            Self::process_element_mapper_extension_verbatim_argument(attrs, ext, &arg.0, arg.1.as_slice(), seen, bad);
            j = j + 1;
        }
    }

    /// Appends the element of a call on `ext`, or its error element, once
    /// its arguments are taken in.
    fn render_mapped(
        &self,
        buf: &mut Vec<u8>,
        call: &BlockCall<'a>,
        ext: &ExtensionElementMapper<'a>,
        content: &Vec<u8>,
        seen: &Vec<Vec<u8>>,
        bad: Option<CallErrorBadParameters>,
        seen_verbatim: &Vec<Vec<u8>>,
        bad_verbatim: Option<CallErrorBadParameters>,
        attrs: Vec<(&[u8], &[u8])>,
    )
        ensures
            final(buf)@ == old(buf)@ + self.spec_mapped(
                *ext,
                view_call(*call),
                args_state(seen@, bad, content@),
                verbatim_args_state(seen_verbatim@, bad_verbatim, attrs@),
            ),
    {
        let ghost c = view_call(*call);
        let ghost st = args_state(seen@, bad, content@);
        let ghost vst = verbatim_args_state(seen_verbatim@, bad_verbatim, attrs@);
        let mut bad = bad;
        let mut bad_verbatim = bad_verbatim;
        let mut attrs = attrs;
        let mut id_buf: Vec<u8> = Vec::new();
        let missing = missing_from(&ext.required_parameters, seen);
        if missing.len() > 0 {
            set_missing(&mut bad, missing);
        }
        let missing_verbatim = missing_from(&ext.required_verbatim_parameters, seen_verbatim);
        if missing_verbatim.len() > 0 {
            set_missing(&mut bad_verbatim, missing_verbatim);
        }
        if bad.is_some() || bad_verbatim.is_some() {
            self.render_call_error(
                buf,
                CallType::Extension,
                call.name,
                CallError::BadParameters { normal: bad, verbatim: bad_verbatim },
                call.block_id,
            );
            return;
        }
        match ext.variant {
            Some(variant) => {
                attrs.push(("variant".as_bytes(), variant));
            },
            None => {},
        }
        let ghost with_variant = attrs@;
        if self.with_block_id {
            write_usize(&mut id_buf, call.block_id.value());
            attrs.push(("data-block-id".as_bytes(), id_buf.as_slice()));
        }
        proof {
            let expected_variant = match ext.variant {
                Some(v) => vst.attrs.push(("variant".spec_bytes(), v@)),
                None => vst.attrs,
            };
            assert(attribute_views(with_variant) =~= expected_variant);
            assert(attribute_views(attrs@) =~= if self.with_block_id {
                expected_variant.push(("data-block-id".spec_bytes(), decimal(call.block_id.value as nat)))
            } else {
                expected_variant
            });
        }
        render_eopening_tag(buf, ext.tag_name, attrs.as_slice());
        buf.extend_from_slice(content.as_slice());
        render_closing_tag(buf, ext.tag_name);
        proof {
            assert(final(buf)@ =~= old(buf)@ + self.spec_mapped(*ext, c, st, vst));
        }
    }

    /// Takes in a normal argument of a call on `ext`.
    fn process_element_mapper_extension_argument(
        &self,
        content_buf: &mut Vec<u8>,
        input: &'a [u8],
        parsed: &[Event],
        ext: &ExtensionElementMapper<'a>,
        key: &ArgumentKey<'a>,
        value: &Vec<CompiledItem<'a>>,
        seen: &mut Vec<Vec<u8>>,
        bad: &mut Option<CallErrorBadParameters>,
    )
        requires
            self.wf(),
            events_within(parsed@, input@.len()),
            self.spec_argument(
                input@,
                parsed@,
                *ext,
                key.view_key(),
                view_items(value@),
                args_state(old(seen)@, *old(bad), old(content_buf)@),
            ) is Some,
        ensures
            args_state(final(seen)@, *final(bad), final(content_buf)@) == self.spec_argument(
                input@,
                parsed@,
                *ext,
                key.view_key(),
                view_items(value@),
                args_state(old(seen)@, *old(bad), old(content_buf)@),
            )->0,
        decreases view_items(value@), 1int,
    {
        let key_vec = key.to_vec();
        match ext.get_real_parameter(key_vec.as_slice()) {
            None => {
                add_unknown(bad, key_vec.as_slice());
            },
            Some((key_real, param)) => {
                if contains_name(seen, key_real) {
                    add_duplicated(bad, key_real);
                    return;
                }
                add_name_to(seen, key_real);
                proof {
                    assert(names_view(seen@) == names_view(old(seen)@).push(key_real@));
                }
                if bad.is_some() {
                    return;
                }
                let ghost before = content_buf@;
                match &param.mapping_to {
                    ExtensionElementMapperParameterMappingTo::NamedSlot(slot_name) => {
                        let mut slot_attrs: Vec<(&[u8], &[u8])> = Vec::new();
                        slot_attrs.push(("slot".as_bytes(), *slot_name));
                        proof {
                            assert(attribute_views(slot_attrs@) =~= seq![("slot".spec_bytes(), slot_name@)]);
                        }
                        render_eopening_tag(content_buf, "div".as_bytes(), slot_attrs.as_slice());
                        self.execute(content_buf, input, parsed, value.as_slice());
                        render_closing_tag(content_buf, "div".as_bytes());
                    },
                    ExtensionElementMapperParameterMappingTo::UnnamedSlot => {
                        self.execute(content_buf, input, parsed, value.as_slice());
                    },
                }
                proof {
                    let out = self.spec_items(input@, parsed@, view_items(value@), 0, Seq::empty())->0;
                    let piece = match param.mapping_to {
                        ExtensionElementMapperParameterMappingTo::NamedSlot(slot) => opening_tag(
                            "div".spec_bytes(),
                            seq![("slot".spec_bytes(), slot@)],
                        ) + out + closing_tag("div".spec_bytes()),
                        ExtensionElementMapperParameterMappingTo::UnnamedSlot => out,
                    };
                    assert(content_buf@ =~= before + piece);
                }
            },
        }
    }

    /// Takes in a verbatim argument of a call on `ext`.
    fn process_element_mapper_extension_verbatim_argument<'b>(
        attrs: &mut Vec<(&'b [u8], &'b [u8])>,
        ext: &'b ExtensionElementMapper<'a>,
        key: &ArgumentKey<'a>,
        value: &'b [u8],
        seen: &mut Vec<Vec<u8>>,
        bad: &mut Option<CallErrorBadParameters>,
    )
        requires
            spec_verbatim_argument(
                *ext,
                key.view_key(),
                value@,
                verbatim_args_state(old(seen)@, *old(bad), old(attrs)@),
            ) is Some,
        ensures
            verbatim_args_state(final(seen)@, *final(bad), final(attrs)@) == spec_verbatim_argument(
                *ext,
                key.view_key(),
                value@,
                verbatim_args_state(old(seen)@, *old(bad), old(attrs)@),
            )->0,
    {
        let key_vec = key.to_vec();
        match ext.get_real_verbatim_parameter(key_vec.as_slice()) {
            None => {
                add_unknown(bad, key_vec.as_slice());
            },
            Some((key_real, param)) => {
                if contains_name(seen, key_real) {
                    add_duplicated(bad, key_real);
                    return;
                }
                add_name_to(seen, key_real);
                proof {
                    assert(names_view(seen@) == names_view(old(seen)@).push(key_real@));
                }
                if bad.is_some() {
                    return;
                }
                match &param.mapping_to {
                    ExtensionElementMapperVerbatimParameterMappingTo::Attribute(attr) => {
                        attrs.push((*attr, value));
                        proof {
                            assert(attribute_views(attrs@) =~= attribute_views(old(attrs)@).push(
                                (attr@, value@),
                            ));
                        }
                    },
                }
            },
        }
    }
}

impl<'a> Executor<'a> {
    /// A document without calls, in which no exit closes an element that was
    /// not entered, renders through compiling and executing as the renderer
    /// renders its events.
    pub proof fn lemma_execute_call_free(&self, max: nat, input: Seq<u8>, evs: Seq<Event>)
        requires
            1 <= max,
            forall|k: int| 0 <= k < evs.len() ==> !is_call_event(#[trigger] evs[k]),
            exits_matched(evs, 0, 0),
        ensures
            spec_compile(max, 1, input, evs, 0) matches Outcome::Done(_, items) && self.spec_execute(
                input,
                evs,
                items,
            ) == match self.renderer.spec_render_events(input, evs, 0, Seq::empty()) {
                Some((out, _)) => Some(out),
                None => None,
            },
    {
        lemma_compile_call_free(max, input, evs);
        let n = evs.len() as int;
        if n > 0 {
            let items = seq![SpecItem::SimpleEvents(0, n)];
            assert(items[0] == SpecItem::SimpleEvents(0, n));
            assert(evs.subrange(0, n) =~= evs);
            assert(self.spec_item(input, evs, items[0], Seq::empty()) == self.renderer.spec_render_events(
                input,
                evs,
                0,
                Seq::empty(),
            ));
            match self.renderer.spec_render_events(input, evs, 0, Seq::empty()) {
                Some((out, after)) => {
                    assert(self.spec_items(input, evs, items, 1, after) == Some(Seq::<u8>::empty()));
                    assert(out + Seq::<u8>::empty() =~= out);
                    assert(self.spec_items(input, evs, items, 0, Seq::empty()) == Some(out));
                },
                None => {
                    assert(self.spec_items(input, evs, items, 0, Seq::empty()) is None);
                },
            }
        } else {
            assert(self.spec_items(input, evs, Seq::empty(), 0, Seq::empty()) == Some(Seq::<u8>::empty()));
        }    }
}

} // verus!
