use vstd::prelude::*;

use core::ops::Range;

use crate::common::LF;
use crate::events::{BlockWithId, ExitBlock, NewLine, ThematicBreak, VerbatimEscaping};
use crate::types::BlockId;
use crate::utils::render::{decimal, write_usize};
use vstd::slice::slice_subrange;

verus! {

/// Why a compilation failed.
#[derive(Debug, PartialEq, Eq, Structural)]
pub enum Error {
    RecursionDepthExceeded,
}

impl Error {
    pub fn name(&self) -> (r: &'static str)
        ensures
            r@ == "RecursionDepthExceeded"@,
    {
        match self {
            Error::RecursionDepthExceeded => "RecursionDepthExceeded",
        }
    }
}

/// A call, as its entering event carries it.
pub enum Call {
    Block { id: BlockId, name: Range<usize> },
}

/// An event of a whole document, block and inline level together, as
/// compiling and rendering read it.
pub enum Event {
    /// Content to be rendered as it is.
    Raw(Range<usize>),
    NewLine(NewLine),
    Text(Range<usize>),
    VerbatimEscaping(VerbatimEscaping),
    /// Exits a block, a call included.
    ExitBlock(ExitBlock),
    /// Exits an inline element.
    ExitInline,
    ThematicBreak(ThematicBreak),
    EnterParagraph(BlockWithId),
    EnterHeading1(BlockWithId),
    EnterHeading2(BlockWithId),
    EnterHeading3(BlockWithId),
    EnterHeading4(BlockWithId),
    EnterHeading5(BlockWithId),
    EnterHeading6(BlockWithId),
    EnterBlockQuote(BlockWithId),
    EnterOrderedList(BlockWithId),
    EnterUnorderedList(BlockWithId),
    EnterListItem(BlockWithId),
    EnterDescriptionList(BlockWithId),
    EnterDescriptionTerm(BlockWithId),
    EnterDescriptionDetails(BlockWithId),
    EnterCodeBlock(BlockWithId),
    EnterTable(BlockWithId),
    EnterCallOnTemplate(Call),
    EnterCallOnExtension(Call),
    IndicateCodeBlockCode,
    IndicateTableCaption,
    IndicateTableRow,
    IndicateTableHeaderCell,
    IndicateTableDataCell,
    /// The start of a normal argument of the call being entered, with its
    /// name, if it has one.
    IndicateCallNormalArgument(Option<Range<usize>>),
    /// The start of a verbatim argument of the call being entered, with its
    /// name, if it has one.
    IndicateCallVerbatimArgument(Option<Range<usize>>),
    /// A reference link, with its address.
    RefLink(Range<usize>),
    /// A dice expression, with its code.
    Dicexp(Range<usize>),
    EnterCodeSpan,
    EnterEmphasis,
    EnterStrong,
    EnterStrikethrough,
    EnterRuby,
    EnterRubyText,
    /// Enters a wiki link, with its address.
    EnterWikiLink(Range<usize>),
}

/// The event enters a block or an inline element, other than a call.
pub open spec fn enters(ev: Event) -> bool {
    match ev {
        Event::EnterParagraph(_) | Event::EnterHeading1(_) | Event::EnterHeading2(_)
        | Event::EnterHeading3(_) | Event::EnterHeading4(_) | Event::EnterHeading5(_)
        | Event::EnterHeading6(_) | Event::EnterBlockQuote(_) | Event::EnterOrderedList(_)
        | Event::EnterUnorderedList(_) | Event::EnterListItem(_) | Event::EnterDescriptionList(_)
        | Event::EnterDescriptionTerm(_) | Event::EnterDescriptionDetails(_)
        | Event::EnterCodeBlock(_) | Event::EnterTable(_) | Event::EnterCodeSpan
        | Event::EnterEmphasis | Event::EnterStrong | Event::EnterStrikethrough | Event::EnterRuby
        | Event::EnterRubyText | Event::EnterWikiLink(_) => true,
        _ => false,
    }
}

/// A piece of the compiled document.
#[derive(Debug, PartialEq, Eq)]
pub enum CompiledItem<'a> {
    /// The events with these indices, to be rendered as they are.
    SimpleEvents(Range<usize>),
    BlockTransclusion(BlockCall<'a>),
    BlockExtension(BlockCall<'a>),
}

/// A call of a template or an extension at block level.
#[derive(Debug, PartialEq, Eq)]
pub struct BlockCall<'a> {
    pub name: &'a [u8],
    pub arguments: Vec<(ArgumentKey<'a>, Vec<CompiledItem<'a>>)>,
    pub verbatim_arguments: Vec<(ArgumentKey<'a>, Vec<u8>)>,
    pub block_id: BlockId,
}

/// The key of an argument: its name, or its position among the unnamed ones
/// of its kind, from 1 on.
#[derive(Debug, PartialEq, Eq, Hash)]
pub enum ArgumentKey<'a> {
    Named(&'a [u8]),
    Unnamed(usize),
}

/// What an argument key stands for.
pub enum SpecKey {
    Named(Seq<u8>),
    Unnamed(nat),
}

impl<'a> ArgumentKey<'a> {
    pub open spec fn view_key(&self) -> SpecKey {
        match self {
            ArgumentKey::Named(name) => SpecKey::Named(name@),
            ArgumentKey::Unnamed(index) => SpecKey::Unnamed(*index as nat),
        }
    }

    /// The key as bytes: the name, or the position in decimal.
    pub fn to_vec(&self) -> (r: Vec<u8>)
        ensures
            r@ == match self.view_key() {
                SpecKey::Named(name) => name,
                SpecKey::Unnamed(index) => decimal(index),
            },
    {
        match self {
            ArgumentKey::Named(name) => {
                let mut buffer: Vec<u8> = Vec::new();
                buffer.extend_from_slice(name);
                proof {
                    assert(buffer@ =~= name@);
                }
                buffer
            },
            ArgumentKey::Unnamed(index) => {
                let mut buffer: Vec<u8> = Vec::new();
                write_usize(&mut buffer, *index);
                proof {
                    assert(buffer@ =~= decimal(*index as nat));
                }
                buffer
            },
        }
    }
}

/// What a compiled item stands for.
pub enum SpecItem {
    SimpleEvents(int, int),
    BlockTransclusion(SpecCall),
    BlockExtension(SpecCall),
}

/// What a call stands for.
pub struct SpecCall {
    pub name: Seq<u8>,
    pub arguments: Seq<(SpecKey, Seq<SpecItem>)>,
    pub verbatim_arguments: Seq<(SpecKey, Seq<u8>)>,
    pub block_id: BlockId,
}

pub open spec fn view_item(item: CompiledItem) -> SpecItem
    decreases item,
{
    match item {
        CompiledItem::SimpleEvents(r) => SpecItem::SimpleEvents(r.start as int, r.end as int),
        CompiledItem::BlockTransclusion(call) => SpecItem::BlockTransclusion(view_call(call)),
        CompiledItem::BlockExtension(call) => SpecItem::BlockExtension(view_call(call)),
    }
}

pub open spec fn view_call(call: BlockCall) -> SpecCall
    decreases call,
{
    SpecCall {
        name: call.name@,
        arguments: view_args(call.arguments@),
        verbatim_arguments: view_vargs(call.verbatim_arguments@),
        block_id: call.block_id,
    }
}

pub open spec fn view_args(args: Seq<(ArgumentKey, Vec<CompiledItem>)>) -> Seq<(SpecKey, Seq<SpecItem>)>
    decreases args,
{
    Seq::new(
        args.len(),
        |j: int|
            if 0 <= j < args.len() {
                (args[j].0.view_key(), view_items(args[j].1@))
            } else {
                (SpecKey::Unnamed(0), Seq::empty())
            },
    )
}

pub open spec fn view_vargs(args: Seq<(ArgumentKey, Vec<u8>)>) -> Seq<(SpecKey, Seq<u8>)> {
    Seq::new(args.len(), |j: int| (args[j].0.view_key(), args[j].1@))
}

pub open spec fn view_items(items: Seq<CompiledItem>) -> Seq<SpecItem>
    decreases items,
{
    Seq::new(
        items.len(),
        |k: int|
            if 0 <= k < items.len() {
                view_item(items[k])
            } else {
                SpecItem::SimpleEvents(0, 0)
            },
    )
}

proof fn lemma_view_items_push(items: Seq<CompiledItem>, item: CompiledItem)
    ensures
        view_items(items.push(item)) == view_items(items).push(view_item(item)),
{
    assert(view_items(items.push(item)) =~= view_items(items).push(view_item(item)));
}

proof fn lemma_view_args_push(
    args: Seq<(ArgumentKey, Vec<CompiledItem>)>,
    arg: (ArgumentKey, Vec<CompiledItem>),
)
    ensures
        view_args(args.push(arg)) == view_args(args).push((arg.0.view_key(), view_items(arg.1@))),
{
    assert(view_args(args.push(arg)) =~= view_args(args).push(
        (arg.0.view_key(), view_items(arg.1@)),
    ));
}

proof fn lemma_view_vargs_push(args: Seq<(ArgumentKey, Vec<u8>)>, arg: (ArgumentKey, Vec<u8>))
    ensures
        view_vargs(args.push(arg)) == view_vargs(args).push((arg.0.view_key(), arg.1@)),
{
    assert(view_vargs(args.push(arg)) =~= view_vargs(args).push((arg.0.view_key(), arg.1@)));
}

/// Every range of the input that the event carries lies within an input of
/// length `len`.
pub open spec fn event_within(ev: Event, len: nat) -> bool {
    match ev {
        Event::EnterCallOnTemplate(Call::Block { name, .. }) => name.start <= name.end <= len,
        Event::EnterCallOnExtension(Call::Block { name, .. }) => name.start <= name.end <= len,
        Event::IndicateCallNormalArgument(Some(name)) => name.start <= name.end <= len,
        Event::IndicateCallVerbatimArgument(Some(name)) => name.start <= name.end <= len,
        Event::Raw(r) => r.start <= r.end <= len,
        Event::Text(r) => r.start <= r.end <= len,
        Event::VerbatimEscaping(v) => v.content.start <= v.content.end <= len,
        Event::RefLink(r) => r.start <= r.end <= len,
        Event::Dicexp(r) => r.start <= r.end <= len,
        Event::EnterWikiLink(r) => r.start <= r.end <= len,
        _ => true,
    }
}

pub open spec fn events_within(evs: Seq<Event>, len: nat) -> bool {
    forall|i: int| 0 <= i < evs.len() ==> event_within(#[trigger] evs[i], len)
}

/// How compiling from some event on ends.
pub enum Outcome {
    /// Compiling stopped before the event at the index, with these items.
    Done(int, Seq<SpecItem>),
    /// Calls are nested deeper than allowed.
    TooDeep,
    /// The events are not such as the parsing makes.
    Malformed,
}

/// How compiling the arguments of a call ends.
pub enum CallOutcome {
    /// The call ends right before the index, with these arguments.
    Done(int, Seq<(SpecKey, Seq<SpecItem>)>, Seq<(SpecKey, Seq<u8>)>),
    TooDeep,
    Malformed,
}

/// The items compiled so far, with the pending run of simple events, if any,
/// closed.
pub open spec fn flush(acc: Seq<SpecItem>, last: Option<(int, int)>) -> Seq<SpecItem> {
    match last {
        Some((start, end)) => if start < end {
            acc.push(SpecItem::SimpleEvents(start, end))
        } else {
            acc
        },
        None => acc,
    }
}

/// The pending run of simple events, extended by the event at `i`.
pub open spec fn advance(last: Option<(int, int)>, i: int) -> Option<(int, int)> {
    match last {
        Some((start, _)) => Some((start, i + 1)),
        None => Some((i, i + 1)),
    }
}

/// The key of an argument with the given name, if any; `unnamed` is the
/// position the next unnamed one takes.
pub open spec fn spec_key(name: Option<Range<usize>>, input: Seq<u8>, unnamed: nat) -> SpecKey {
    match name {
        Some(r) => SpecKey::Named(input.subrange(r.start as int, r.end as int)),
        None => SpecKey::Unnamed(unnamed),
    }
}

/// The position the next unnamed argument takes after one with the given
/// name.
pub open spec fn next_unnamed(name: Option<Range<usize>>, unnamed: nat) -> nat {
    if name is None {
        unnamed + 1
    } else {
        unnamed
    }
}

/// The value of a verbatim argument whose text begins at `k`, appended to
/// `acc`, and where it ends; `None` where the events end first.
pub open spec fn spec_verbatim(input: Seq<u8>, evs: Seq<Event>, k: int, acc: Seq<u8>) -> Option<
    (int, Seq<u8>),
>
    decreases evs.len() - k,
{
    if k < 0 || k >= evs.len() {
        None
    } else {
        match evs[k] {
            Event::Text(r) => spec_verbatim(
                input,
                evs,
                k + 1,
                acc + input.subrange(r.start as int, r.end as int),
            ),
            Event::VerbatimEscaping(v) => spec_verbatim(
                input,
                evs,
                k + 1,
                acc + input.subrange(v.content.start as int, v.content.end as int),
            ),
            Event::NewLine(_) => spec_verbatim(input, evs, k + 1, acc.push(LF)),
            _ => Some((k, acc)),
        }
    }
}

/// The item of a call with its arguments.
pub open spec fn spec_call_item(
    is_transclusion: bool,
    call: Call,
    input: Seq<u8>,
    arguments: Seq<(SpecKey, Seq<SpecItem>)>,
    verbatim_arguments: Seq<(SpecKey, Seq<u8>)>,
) -> SpecItem {
    match call {
        Call::Block { id, name } => {
            let c = SpecCall {
                name: input.subrange(name.start as int, name.end as int),
                arguments,
                verbatim_arguments,
                block_id: id,
            };
            if is_transclusion {
                SpecItem::BlockTransclusion(c)
            } else {
                SpecItem::BlockExtension(c)
            }
        },
    }
}

/// The normal arguments of a call item.
pub open spec fn spec_call_item_arguments(item: SpecItem) -> Seq<(SpecKey, Seq<SpecItem>)> {
    match item {
        SpecItem::BlockTransclusion(c) => c.arguments,
        SpecItem::BlockExtension(c) => c.arguments,
        SpecItem::SimpleEvents(..) => Seq::empty(),
    }
}

/// The verbatim arguments of a call item.
pub open spec fn spec_call_item_verbatim_arguments(item: SpecItem) -> Seq<(SpecKey, Seq<u8>)> {
    match item {
        SpecItem::BlockTransclusion(c) => c.verbatim_arguments,
        SpecItem::BlockExtension(c) => c.verbatim_arguments,
        SpecItem::SimpleEvents(..) => Seq::empty(),
    }
}

/// Compiling at call depth `depth` from the event at `i` on, where at most
/// `max` nested calls are allowed.
pub open spec fn spec_compile(max: nat, depth: nat, input: Seq<u8>, evs: Seq<Event>, i: int) -> Outcome
    decreases evs.len() - i, 2nat,
{
    if depth > max {
        Outcome::TooDeep
    } else {
        spec_items(max, depth, input, evs, i, 0, None, Seq::empty())
    }
}

/// Compiling goes on at `i`, inside `stack_depth` elements entered since it
/// began, with the pending run of simple events `last` and the items `acc`.
pub open spec fn spec_items(
    max: nat,
    depth: nat,
    input: Seq<u8>,
    evs: Seq<Event>,
    i: int,
    stack_depth: nat,
    last: Option<(int, int)>,
    acc: Seq<SpecItem>,
) -> Outcome
    decreases evs.len() - i, 1nat,
{
    if i < 0 || i >= evs.len() {
        Outcome::Done(i, flush(acc, last))
    } else {
        match evs[i] {
            Event::ExitBlock(_) => if stack_depth == 0 {
                Outcome::Done(i, flush(acc, last))
            } else {
                spec_items(
                    max,
                    depth,
                    input,
                    evs,
                    i + 1,
                    (stack_depth - 1) as nat,
                    advance(last, i),
                    acc,
                )
            },
            Event::IndicateCallNormalArgument(_) => if stack_depth == 0 {
                Outcome::Done(i, flush(acc, last))
            } else {
                Outcome::Malformed
            },
            Event::IndicateCallVerbatimArgument(_) => if stack_depth == 0 {
                Outcome::Done(i, flush(acc, last))
            } else {
                Outcome::Malformed
            },
            Event::EnterCallOnTemplate(call) => spec_after_call(
                max,
                depth,
                input,
                evs,
                i,
                stack_depth,
                flush(acc, last),
                true,
                call,
                spec_call_args(max, depth, input, evs, i + 1, Seq::empty(), Seq::empty(), 1, 1),
            ),
            Event::EnterCallOnExtension(call) => spec_after_call(
                max,
                depth,
                input,
                evs,
                i,
                stack_depth,
                flush(acc, last),
                false,
                call,
                spec_call_args(max, depth, input, evs, i + 1, Seq::empty(), Seq::empty(), 1, 1),
            ),
            Event::ExitInline => if stack_depth == 0 {
                Outcome::Malformed
            } else {
                spec_items(
                    max,
                    depth,
                    input,
                    evs,
                    i + 1,
                    (stack_depth - 1) as nat,
                    advance(last, i),
                    acc,
                )
            },
            _ => if enters(evs[i]) {
                spec_items(
                    max,
                    depth,
                    input,
                    evs,
                    i + 1,
                    stack_depth + 1,
                    advance(last, i),
                    acc,
                )
            } else {
                spec_items(max, depth, input, evs, i + 1, stack_depth, advance(last, i), acc)
            },
        }
    }
}

/// Compiling goes on after the call entered at `i`, whose arguments came out
/// as `args`.
pub open spec fn spec_after_call(
    max: nat,
    depth: nat,
    input: Seq<u8>,
    evs: Seq<Event>,
    i: int,
    stack_depth: nat,
    acc: Seq<SpecItem>,
    is_transclusion: bool,
    call: Call,
    args: CallOutcome,
) -> Outcome
    decreases evs.len() - i, 0nat,
{
    match args {
        CallOutcome::Done(end, arguments, verbatim_arguments) => if i < end <= evs.len() {
            spec_items(
                max,
                depth,
                input,
                evs,
                end,
                stack_depth,
                None,
                acc.push(spec_call_item(is_transclusion, call, input, arguments, verbatim_arguments)),
            )
        } else {
            Outcome::Malformed
        },
        CallOutcome::TooDeep => Outcome::TooDeep,
        CallOutcome::Malformed => Outcome::Malformed,
    }
}

/// Compiling the arguments of a call goes on at `j`, with the arguments
/// `args` and `vargs` so far and the positions the next unnamed ones take.
pub open spec fn spec_call_args(
    max: nat,
    depth: nat,
    input: Seq<u8>,
    evs: Seq<Event>,
    j: int,
    args: Seq<(SpecKey, Seq<SpecItem>)>,
    vargs: Seq<(SpecKey, Seq<u8>)>,
    unnamed: nat,
    unnamed_verbatim: nat,
) -> CallOutcome
    decreases evs.len() - j, 3nat,
{
    if j < 0 || j >= evs.len() {
        CallOutcome::Malformed
    } else {
        match evs[j] {
            Event::ExitBlock(_) => CallOutcome::Done(j + 1, args, vargs),
            Event::IndicateCallNormalArgument(name) => match spec_compile(
                max,
                depth + 1,
                input,
                evs,
                j + 1,
            ) {
                Outcome::Done(end, items) => if j < end <= evs.len() {
                    spec_call_args(
                        max,
                        depth,
                        input,
                        evs,
                        end,
                        args.push((spec_key(name, input, unnamed), items)),
                        vargs,
                        next_unnamed(name, unnamed),
                        unnamed_verbatim,
                    )
                } else {
                    CallOutcome::Malformed
                },
                Outcome::TooDeep => CallOutcome::TooDeep,
                Outcome::Malformed => CallOutcome::Malformed,
            },
            Event::IndicateCallVerbatimArgument(name) => match spec_verbatim(
                input,
                evs,
                j + 1,
                Seq::empty(),
            ) {
                Some((end, value)) => if j < end <= evs.len() {
                    spec_call_args(
                        max,
                        depth,
                        input,
                        evs,
                        end,
                        args,
                        vargs.push((spec_key(name, input, unnamed_verbatim), value)),
                        unnamed,
                        next_unnamed(name, unnamed_verbatim),
                    )
                } else {
                    CallOutcome::Malformed
                },
                None => CallOutcome::Malformed,
            },
            _ => CallOutcome::Malformed,
        }
    }
}

/// The keys of arguments, in order.
pub open spec fn arg_keys<V>(args: Seq<(SpecKey, V)>) -> Seq<SpecKey> {
    args.map_values(|a: (SpecKey, V)| a.0)
}

/// How many of the keys are unnamed.
pub open spec fn count_unnamed(keys: Seq<SpecKey>) -> nat
    decreases keys.len(),
{
    if keys.len() == 0 {
        0
    } else {
        count_unnamed(keys.drop_last()) + if keys.last() is Unnamed {
            1nat
        } else {
            0nat
        }
    }
}

/// The n-th unnamed key is `Unnamed(n)`.
pub open spec fn unnamed_numbered(keys: Seq<SpecKey>) -> bool {
    forall|j: int|
        0 <= j < keys.len() && #[trigger] keys[j] is Unnamed ==> keys[j]->Unnamed_0 == count_unnamed(
            keys.take(j),
        ) + 1
}

/// One more key, taking the next position if unnamed, keeps the numbering.
proof fn lemma_unnamed_numbered_push(keys: Seq<SpecKey>, name: Option<Range<usize>>, input: Seq<u8>, n: nat)
    requires
        unnamed_numbered(keys),
        n == count_unnamed(keys) + 1,
    ensures
        unnamed_numbered(keys.push(spec_key(name, input, n))),
        next_unnamed(name, n) == count_unnamed(keys.push(spec_key(name, input, n))) + 1,
{
    let k2 = keys.push(spec_key(name, input, n));
    assert(k2.drop_last() =~= keys);
    assert forall|j: int| 0 <= j < k2.len() && #[trigger] k2[j] is Unnamed implies k2[j]->Unnamed_0
        == count_unnamed(k2.take(j)) + 1 by {
        if j < keys.len() {
            assert(k2.take(j) =~= keys.take(j));
            assert(k2[j] == keys[j]);
        } else {
            assert(k2.take(j) =~= keys);
        }
    }
}

/// The keys of the arguments that the compiling of a call goes on with stay
/// numbered.
proof fn lemma_call_args_numbered_from(
    max: nat,
    depth: nat,
    input: Seq<u8>,
    evs: Seq<Event>,
    j: int,
    args: Seq<(SpecKey, Seq<SpecItem>)>,
    vargs: Seq<(SpecKey, Seq<u8>)>,
    unnamed: nat,
    unnamed_verbatim: nat,
)
    requires
        unnamed_numbered(arg_keys(args)),
        unnamed == count_unnamed(arg_keys(args)) + 1,
        unnamed_numbered(arg_keys(vargs)),
        unnamed_verbatim == count_unnamed(arg_keys(vargs)) + 1,
    ensures
        spec_call_args(max, depth, input, evs, j, args, vargs, unnamed, unnamed_verbatim) matches CallOutcome::Done(
            _,
            a,
            v,
        ) ==> unnamed_numbered(arg_keys(a)) && unnamed_numbered(arg_keys(v)),
    decreases evs.len() - j,
{
    if 0 <= j < evs.len() {
        match evs[j] {
            Event::IndicateCallNormalArgument(name) => match spec_compile(max, depth + 1, input, evs, j + 1) {
                Outcome::Done(end, items) => if j < end <= evs.len() {
                    let args2 = args.push((spec_key(name, input, unnamed), items));
                    assert(arg_keys(args2) =~= arg_keys(args).push(spec_key(name, input, unnamed)));
                    lemma_unnamed_numbered_push(arg_keys(args), name, input, unnamed);
                    lemma_call_args_numbered_from(
                        max,
                        depth,
                        input,
                        evs,
                        end,
                        args2,
                        vargs,
                        next_unnamed(name, unnamed),
                        unnamed_verbatim,
                    );
                },
                _ => {},
            },
            Event::IndicateCallVerbatimArgument(name) => match spec_verbatim(input, evs, j + 1, Seq::empty()) {
                Some((end, value)) => if j < end <= evs.len() {
                    let vargs2 = vargs.push((spec_key(name, input, unnamed_verbatim), value));
                    assert(arg_keys(vargs2) =~= arg_keys(vargs).push(spec_key(name, input, unnamed_verbatim)));
                    lemma_unnamed_numbered_push(arg_keys(vargs), name, input, unnamed_verbatim);
                    lemma_call_args_numbered_from(
                        max,
                        depth,
                        input,
                        evs,
                        end,
                        args,
                        vargs2,
                        unnamed,
                        next_unnamed(name, unnamed_verbatim),
                    );
                },
                None => {},
            },
            _ => {},
        }
    }
}

/// The unnamed arguments of a call are numbered from 1 in the order they
/// come, the normal ones and the verbatim ones each on their own: the n-th
/// unnamed normal argument has the key `Unnamed(n)` whatever verbatim
/// arguments come before it, and the n-th unnamed verbatim argument has the
/// key `Unnamed(n)` whatever normal arguments come before it.
pub proof fn lemma_call_args_numbered(max: nat, depth: nat, input: Seq<u8>, evs: Seq<Event>, j: int)
    ensures
        spec_call_args(max, depth, input, evs, j, Seq::empty(), Seq::empty(), 1, 1) matches CallOutcome::Done(
            _,
            a,
            v,
        ) ==> unnamed_numbered(arg_keys(a)) && unnamed_numbered(arg_keys(v)),
{
    let e1: Seq<(SpecKey, Seq<SpecItem>)> = Seq::empty();
    let e2: Seq<(SpecKey, Seq<u8>)> = Seq::empty();
    assert(arg_keys(e1) =~= Seq::<SpecKey>::empty());
    assert(arg_keys(e2) =~= Seq::<SpecKey>::empty());
    lemma_call_args_numbered_from(max, depth, input, evs, j, e1, e2, 1, 1);
}

/// Options of a compilation.
pub struct NewCompileOptions {
    pub restrictions: Restrictions,
}

/// Limits that a document must keep to.
pub struct Restrictions {
    /// The most calls (the outermost included) that may be nested in one
    /// document.
    pub max_call_depth_in_document: usize,
}

/// Compiles the events of a document into items to be executed: runs of
/// simple events, and calls with their arguments.
pub struct Compiler<'a> {
    pub restrictions: &'a Restrictions,
}

/// Closes the pending run of simple events, if it is not empty.
fn push_simple_events<'a>(result: &mut Vec<CompiledItem<'a>>, range: &mut Option<Range<usize>>)
    ensures
        view_items(final(result)@) == flush(view_items(old(result)@), range_pair(*old(range))),
        *final(range) is None,
{
    let taken = range.take();
    match taken {
        Some(r) => {
            if r.start < r.end {
                let ghost before = result@;
                let item = CompiledItem::SimpleEvents(r);
                proof {
                    lemma_view_items_push(before, item);
                }
                result.push(item);
            }
        },
        None => {},
    }
}

/// Extends the pending run of simple events by the event at `*i`, and moves
/// on to the next event.
fn advance_simple_events(range: &mut Option<Range<usize>>, i: &mut usize)
    requires
        *old(i) < usize::MAX,
    ensures
        range_pair(*final(range)) == advance(range_pair(*old(range)), *old(i) as int),
        *final(i) == *old(i) + 1,
        *final(range) matches Some(r) && r.end == *final(i) && (*old(range) matches Some(o)
            ==> r.start == o.start),
{
    let start = match range {
        Some(r) => r.start,
        None => *i,
    };
    *i = *i + 1;
    *range = Some(start..*i);
}

/// A pending run of simple events as a pair of indices.
pub open spec fn range_pair(range: Option<Range<usize>>) -> Option<(int, int)> {
    match range {
        Some(r) => Some((r.start as int, r.end as int)),
        None => None,
    }
}

/// The event enters a call or begins an argument of one.
pub open spec fn is_call_event(ev: Event) -> bool {
    ||| ev is EnterCallOnTemplate
    ||| ev is EnterCallOnExtension
    ||| ev is IndicateCallNormalArgument
    ||| ev is IndicateCallVerbatimArgument
}

/// From the event at `i` on, with `open` elements open, no exit closes an
/// element that was not entered.
pub open spec fn exits_matched(evs: Seq<Event>, i: int, open: nat) -> bool
    decreases evs.len() - i,
{
    if i < 0 || i >= evs.len() {
        true
    } else {
        match evs[i] {
            Event::ExitBlock(_) | Event::ExitInline => open > 0 && exits_matched(
                evs,
                i + 1,
                (open - 1) as nat,
            ),
            _ => if enters(evs[i]) {
                exits_matched(evs, i + 1, open + 1)
            } else {
                exits_matched(evs, i + 1, open)
            },
        }
    }
}

proof fn lemma_compile_call_free_from(
    max: nat,
    input: Seq<u8>,
    evs: Seq<Event>,
    i: int,
    open: nat,
)
    requires
        0 <= i <= evs.len(),
        1 <= max,
        forall|k: int| 0 <= k < evs.len() ==> !is_call_event(#[trigger] evs[k]),
        exits_matched(evs, i, open),
    ensures
        spec_items(
            max,
            1,
            input,
            evs,
            i,
            open,
            if i == 0 {
                None
            } else {
                Some((0int, i))
            },
            Seq::empty(),
        ) == Outcome::Done(
            evs.len() as int,
            if evs.len() > 0 {
                seq![SpecItem::SimpleEvents(0, evs.len() as int)]
            } else {
                Seq::empty()
            },
        ),
    decreases evs.len() - i,
{
    if i < evs.len() {
        assert(!is_call_event(evs[i]));
        match evs[i] {
            Event::ExitBlock(_) | Event::ExitInline => {
                lemma_compile_call_free_from(max, input, evs, i + 1, (open - 1) as nat);
            },
            _ => {
                if enters(evs[i]) {
                    lemma_compile_call_free_from(max, input, evs, i + 1, open + 1);
                } else {
                    lemma_compile_call_free_from(max, input, evs, i + 1, open);
                }
            },
        }
    } else {
        if i > 0 {
            assert(flush(Seq::empty(), Some((0int, i))) =~= seq![SpecItem::SimpleEvents(0, i)]);
        }
    }
}

/// Events with no call, in which no exit closes an element that was not
/// entered, compile to one run of simple events: all of them.
pub proof fn lemma_compile_call_free(max: nat, input: Seq<u8>, evs: Seq<Event>)
    requires
        1 <= max,
        forall|k: int| 0 <= k < evs.len() ==> !is_call_event(#[trigger] evs[k]),
        exits_matched(evs, 0, 0),
    ensures
        spec_compile(max, 1, input, evs, 0) == Outcome::Done(
            evs.len() as int,
            if evs.len() > 0 {
                seq![SpecItem::SimpleEvents(0, evs.len() as int)]
            } else {
                Seq::empty()
            },
        ),
{
    lemma_compile_call_free_from(max, input, evs, 0, 0);
}

impl<'a> Compiler<'a> {
    pub fn new(opts: &'a NewCompileOptions) -> (r: Self)
        ensures
            r.restrictions == &opts.restrictions,
    {
        Compiler { restrictions: &opts.restrictions }
    }

    /// The most calls that may be nested.
    pub open spec fn max(&self) -> nat {
        self.restrictions.max_call_depth_in_document as nat
    }

    /// Compiles the events of a document.
    ///
    /// The events must be well formed, as `spec_compile` tells: an argument
    /// indicator only right inside a call, and each call closed by its exit.
    /// On other lists the compiler has no defined result (the parser never
    /// yields them), and the call is not admitted.
    pub fn compile(&self, input: &'a [u8], evs: &[Event]) -> (r: Result<Vec<CompiledItem<'a>>, Error>)
        requires
            events_within(evs@, input@.len()),
            !(spec_compile(self.max(), 1, input@, evs@, 0) is Malformed),
        ensures
            match r {
                Ok(items) => spec_compile(self.max(), 1, input@, evs@, 0) matches Outcome::Done(
                    _,
                    expected,
                ) && view_items(items@) == expected,
                Err(e) => e == Error::RecursionDepthExceeded && spec_compile(
                    self.max(),
                    1,
                    input@,
                    evs@,
                    0,
                ) is TooDeep,
            },
    {
        match self.compile_internal(1, input, evs, 0) {
            Ok((_, result)) => Ok(result),
            Err(e) => Err(e),
        }
    }

    fn compile_internal(&self, depth: usize, input: &'a [u8], evs: &[Event], i: usize) -> (r: Result<
        (usize, Vec<CompiledItem<'a>>),
        Error,
    >)
        requires
            i <= evs@.len(),
            events_within(evs@, input@.len()),
            !(spec_compile(self.max(), depth as nat, input@, evs@, i as int) is Malformed),
        ensures
            r matches Ok(p) ==> i <= p.0 <= evs@.len() && spec_compile(
                self.max(),
                depth as nat,
                input@,
                evs@,
                i as int,
            ) == Outcome::Done(p.0 as int, view_items(p.1@)),
            r matches Err(e) ==> e == Error::RecursionDepthExceeded && spec_compile(
                self.max(),
                depth as nat,
                input@,
                evs@,
                i as int,
            ) is TooDeep,
        decreases evs@.len() - i, 1nat,
    {
        if depth > self.restrictions.max_call_depth_in_document {
            return Err(Error::RecursionDepthExceeded);
        }
        let ghost max = self.max();
        let ghost outcome = spec_compile(max, depth as nat, input@, evs@, i as int);
        let mut result: Vec<CompiledItem<'a>> = Vec::new();
        let mut last_simple_evs: Option<Range<usize>> = None;
        let mut stack_depth: usize = 0;
        let mut cur = i;
        assert(view_items(result@) =~= Seq::<SpecItem>::empty());
        loop
            invariant
                i <= cur <= evs@.len(),
                depth <= max,
                max == self.max(),
                stack_depth <= cur - i,
                events_within(evs@, input@.len()),
                last_simple_evs matches Some(r) ==> i <= r.start && r.end == cur,
                outcome == spec_compile(max, depth as nat, input@, evs@, i as int),
                !(outcome is Malformed),
                outcome == spec_items(
                    max,
                    depth as nat,
                    input@,
                    evs@,
                    cur as int,
                    stack_depth as nat,
                    range_pair(last_simple_evs),
                    view_items(result@),
                ),
            decreases evs@.len() - cur,
        {
            if cur >= evs.len() {
                push_simple_events(&mut result, &mut last_simple_evs);
                return Ok((cur, result));
            }
            match &evs[cur] {
                Event::ExitBlock(_) => {
                    if stack_depth == 0 {
                        push_simple_events(&mut result, &mut last_simple_evs);
                        return Ok((cur, result));
                    }
                    stack_depth = stack_depth - 1;
                    advance_simple_events(&mut last_simple_evs, &mut cur);
                },
                Event::IndicateCallNormalArgument(_) => {
                    push_simple_events(&mut result, &mut last_simple_evs);
                    return Ok((cur, result));
                },
                Event::IndicateCallVerbatimArgument(_) => {
                    push_simple_events(&mut result, &mut last_simple_evs);
                    return Ok((cur, result));
                },
                Event::EnterCallOnTemplate(call) => {
                    proof {
                        assert(outcome == spec_after_call(
                            max,
                            depth as nat,
                            input@,
                            evs@,
                            cur as int,
                            stack_depth as nat,
                            flush(view_items(result@), range_pair(last_simple_evs)),
                            true,
                            *call,
                            spec_call_args(max, depth as nat, input@, evs@, cur + 1, Seq::empty(), Seq::empty(), 1, 1),
                        ));
                    }
                    push_simple_events(&mut result, &mut last_simple_evs);
                    let item = self.compile_call(depth, input, evs, cur, true, call);
                    match item {
                        Ok((end, item)) => {
                            proof {
                                lemma_view_items_push(result@, item);
                            }
                            result.push(item);
                            cur = end;
                        },
                        Err(e) => {
                            return Err(e);
                        },
                    }
                },
                Event::EnterCallOnExtension(call) => {
                    proof {
                        assert(outcome == spec_after_call(
                            max,
                            depth as nat,
                            input@,
                            evs@,
                            cur as int,
                            stack_depth as nat,
                            flush(view_items(result@), range_pair(last_simple_evs)),
                            false,
                            *call,
                            spec_call_args(max, depth as nat, input@, evs@, cur + 1, Seq::empty(), Seq::empty(), 1, 1),
                        ));
                    }
                    push_simple_events(&mut result, &mut last_simple_evs);
                    let item = self.compile_call(depth, input, evs, cur, false, call);
                    match item {
                        Ok((end, item)) => {
                            proof {
                                lemma_view_items_push(result@, item);
                            }
                            result.push(item);
                            cur = end;
                        },
                        Err(e) => {
                            return Err(e);
                        },
                    }
                },
                Event::ExitInline => {
                    stack_depth = stack_depth - 1;
                    advance_simple_events(&mut last_simple_evs, &mut cur);
                },
                Event::EnterParagraph(_)
                | Event::EnterHeading1(_)
                | Event::EnterHeading2(_)
                | Event::EnterHeading3(_)
                | Event::EnterHeading4(_)
                | Event::EnterHeading5(_)
                | Event::EnterHeading6(_)
                | Event::EnterBlockQuote(_)
                | Event::EnterOrderedList(_)
                | Event::EnterUnorderedList(_)
                | Event::EnterListItem(_)
                | Event::EnterDescriptionList(_)
                | Event::EnterDescriptionTerm(_)
                | Event::EnterDescriptionDetails(_)
                | Event::EnterCodeBlock(_)
                | Event::EnterTable(_)
                | Event::EnterCodeSpan
                | Event::EnterEmphasis
                | Event::EnterStrong
                | Event::EnterStrikethrough
                | Event::EnterRuby
                | Event::EnterRubyText
                | Event::EnterWikiLink(_) => {
                    stack_depth = stack_depth + 1;
                    advance_simple_events(&mut last_simple_evs, &mut cur);
                },
                Event::Raw(_)
                | Event::NewLine(_)
                | Event::Text(_)
                | Event::VerbatimEscaping(_)
                | Event::ThematicBreak(_)
                | Event::RefLink(_)
                | Event::Dicexp(_)
                | Event::IndicateTableRow
                | Event::IndicateTableCaption
                | Event::IndicateTableHeaderCell
                | Event::IndicateTableDataCell
                | Event::IndicateCodeBlockCode => {
                    advance_simple_events(&mut last_simple_evs, &mut cur);
                },
            }
        }
    }

    /// Compiles the arguments of the call entered at `i`, up to the end of the
    /// call, which is where compiling goes on.
    fn compile_call(
        &self,
        depth: usize,
        input: &'a [u8],
        evs: &[Event],
        i: usize,
        is_transclusion: bool,
        call: &Call,
    ) -> (r: Result<(usize, CompiledItem<'a>), Error>)
        requires
            i < evs@.len(),
            depth <= self.max(),
            events_within(evs@, input@.len()),
            evs@[i as int] == (if is_transclusion {
                Event::EnterCallOnTemplate(*call)
            } else {
                Event::EnterCallOnExtension(*call)
            }),
            !(spec_call_args(self.max(), depth as nat, input@, evs@, i + 1, Seq::empty(), Seq::empty(), 1, 1) is Malformed),
        ensures
            r matches Ok(p) ==> i < p.0 <= evs@.len() && spec_call_args(
                self.max(),
                depth as nat,
                input@,
                evs@,
                i + 1,
                Seq::empty(),
                Seq::empty(),
                1,
                1,
            ) == CallOutcome::Done(
                p.0 as int,
                spec_call_item_arguments(view_item(p.1)),
                spec_call_item_verbatim_arguments(view_item(p.1)),
            ) && view_item(p.1) == spec_call_item(
                is_transclusion,
                *call,
                input@,
                spec_call_item_arguments(view_item(p.1)),
                spec_call_item_verbatim_arguments(view_item(p.1)),
            ),
            r matches Err(e) ==> e == Error::RecursionDepthExceeded && spec_call_args(
                self.max(),
                depth as nat,
                input@,
                evs@,
                i + 1,
                Seq::empty(),
                Seq::empty(),
                1,
                1,
            ) is TooDeep,
        decreases evs@.len() - i, 0nat,
    {
        proof {
            assert(event_within(evs@[i as int], input@.len()));
        }
        let ghost max = self.max();
        let ghost outcome = spec_call_args(max, depth as nat, input@, evs@, i + 1, Seq::empty(), Seq::empty(), 1, 1);
        let mut arguments: Vec<(ArgumentKey<'a>, Vec<CompiledItem<'a>>)> = Vec::new();
        let mut verbatim_arguments: Vec<(ArgumentKey<'a>, Vec<u8>)> = Vec::new();
        let mut unnamed: usize = 1;
        let mut unnamed_verbatim: usize = 1;
        let len = evs.len();
        let mut j: usize = i + 1;
        assert(view_args(arguments@) =~= Seq::<(SpecKey, Seq<SpecItem>)>::empty());
        assert(view_vargs(verbatim_arguments@) =~= Seq::<(SpecKey, Seq<u8>)>::empty());
        loop
            invariant
                i < j <= evs@.len(),
                depth <= self.max(),
                evs@[i as int] == (if is_transclusion {
                    Event::EnterCallOnTemplate(*call)
                } else {
                    Event::EnterCallOnExtension(*call)
                }),
                event_within(evs@[i as int], input@.len()),
                max == self.max(),
                1 <= unnamed <= j - i,
                1 <= unnamed_verbatim <= j - i,
                events_within(evs@, input@.len()),
                outcome == spec_call_args(max, depth as nat, input@, evs@, i + 1, Seq::empty(), Seq::empty(), 1, 1),
                !(outcome is Malformed),
                outcome == spec_call_args(
                    max,
                    depth as nat,
                    input@,
                    evs@,
                    j as int,
                    view_args(arguments@),
                    view_vargs(verbatim_arguments@),
                    unnamed as nat,
                    unnamed_verbatim as nat,
                ),
            decreases evs@.len() - j,
        {
            match &evs[j] {
                Event::ExitBlock(_) => {
                    let item_call = match call {
                        Call::Block { id, name } => BlockCall {
                            name: slice_subrange(input, name.start, name.end),
                            arguments,
                            verbatim_arguments,
                            block_id: *id,
                        },
                    };
                    let item = if is_transclusion {
                        CompiledItem::BlockTransclusion(item_call)
                    } else {
                        CompiledItem::BlockExtension(item_call)
                    };
                    return Ok((j + 1, item));
                },
                Event::IndicateCallNormalArgument(name) => {
                    let key = match name {
                        Some(r) => ArgumentKey::Named(slice_subrange(input, r.start, r.end)),
                        None => {
                            let k = ArgumentKey::Unnamed(unnamed);
                            unnamed = unnamed + 1;
                            k
                        },
                    };
                    // An argument one level deeper than allowed is refused
                    // here, before its depth is counted.
                    let value = if depth >= self.restrictions.max_call_depth_in_document {
                        Err(Error::RecursionDepthExceeded)
                    } else {
                        self.compile_internal(depth + 1, input, evs, j + 1)
                    };
                    match value {
                        Ok((end, value)) => {
                            let arg = (key, value);
                            proof {
                                lemma_view_args_push(arguments@, arg);
                            }
                            arguments.push(arg);
                            j = end;
                        },
                        Err(e) => {
                            return Err(e);
                        },
                    }
                },
                Event::IndicateCallVerbatimArgument(name) => {
                    let key = match name {
                        Some(r) => ArgumentKey::Named(slice_subrange(input, r.start, r.end)),
                        None => {
                            let k = ArgumentKey::Unnamed(unnamed_verbatim);
                            unnamed_verbatim = unnamed_verbatim + 1;
                            k
                        },
                    };
                    let (end, value) = compile_verbatim_argument(input, evs, j);
                    let arg = (key, value);
                    proof {
                        lemma_view_vargs_push(verbatim_arguments@, arg);
                    }
                    verbatim_arguments.push(arg);
                    j = end;
                },
                _ => {
                    proof {
                        assert(false);
                    }
                    return Err(Error::RecursionDepthExceeded);
                },
            }
        }
    }
}

/// Collects the value of the verbatim argument indicated at `j`: its text,
/// with line breaks as LF.
fn compile_verbatim_argument(input: &[u8], evs: &[Event], j: usize) -> (r: (usize, Vec<u8>))
    requires
        j < evs@.len(),
        events_within(evs@, input@.len()),
        spec_verbatim(input@, evs@, j + 1, Seq::empty()) is Some,
    ensures
        spec_verbatim(input@, evs@, j + 1, Seq::empty()) == Some((r.0 as int, r.1@)),
        j < r.0 < evs@.len(),
{
    let ghost expected = spec_verbatim(input@, evs@, j + 1, Seq::empty());
    let mut value: Vec<u8> = Vec::new();
    let mut k: usize = j;
    loop
        invariant
            j <= k < evs@.len(),
            events_within(evs@, input@.len()),
            expected == spec_verbatim(input@, evs@, j + 1, Seq::empty()),
            expected is Some,
            expected == spec_verbatim(input@, evs@, k + 1, value@),
        decreases evs@.len() - k,
    {
        let len = evs.len();
        assert(k + 1 < evs@.len());
        k = k + 1;
        match &evs[k] {
            Event::Text(r) => {
                let ghost before = value@;
                value.extend_from_slice(slice_subrange(input, r.start, r.end));
                proof {
                    assert(value@ =~= before + input@.subrange(r.start as int, r.end as int));
                }
            },
            Event::VerbatimEscaping(v) => {
                let ghost before = value@;
                value.extend_from_slice(slice_subrange(input, v.content.start, v.content.end));
                proof {
                    assert(value@ =~= before + input@.subrange(
                        v.content.start as int,
                        v.content.end as int,
                    ));
                }
            },
            Event::NewLine(_) => {
                value.push(LF);
            },
            _ => {
                return (k, value);
            },
        }
    }
}

} // verus!
