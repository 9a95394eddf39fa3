use rotext::compiling::{Compiler, Event, NewCompileOptions, Restrictions};
use rotext::events::{BlockWithId, ExitBlock, NewLine, ThematicBreak, VerbatimEscaping};
use rotext::compiling::Call;
use rotext::executing::extensions::{
    Extension, ExtensionElementMapper, ExtensionElementMapperParameter,
    ExtensionElementMapperParameterMappingTo, ExtensionElementMapperVerbatimParameter,
    ExtensionElementMapperVerbatimParameterMappingTo, NameMap, NameSet, ParameterWrapper,
};
use rotext::executing::renderer::{NewRendererOptions, Renderer, StackEntryBox, TagNameMap};
use rotext::executing::{Executor, NewExecutorOptions};
use rotext::types::{BlockId, LineNumber};

fn tag_name_map() -> TagNameMap<'static> {
    TagNameMap {
        block_call_error: b"x-block-call-error",
        code_block: b"x-code-block",
        ref_link: b"x-ref-link",
        dicexp: b"x-dicexp",
        wiki_link: b"x-wiki-link",
    }
}

fn b(id: usize) -> BlockWithId {
    BlockWithId {
        id: BlockId::new(id),
    }
}

fn exit_id(id: usize) -> Event {
    Event::ExitBlock(ExitBlock {
        id: BlockId::new(id),
        start_line: LineNumber::new(1),
        end_line: LineNumber::new(1),
    })
}

fn exit() -> Event {
    exit_id(0)
}

fn nl() -> Event {
    Event::NewLine(NewLine {
        line_after: LineNumber::new(0),
    })
}

fn ve(start: usize, end: usize) -> Event {
    Event::VerbatimEscaping(VerbatimEscaping {
        content: start..end,
        is_closed_forcedly: false,
        line_after: LineNumber::new(0),
    })
}

fn new_parameter_map(
) -> NameMap<'static, ParameterWrapper<'static, ExtensionElementMapperParameter<'static>>> {
    let mut map = NameMap::new();
    map.insert(
        b"1",
        ParameterWrapper::Real(ExtensionElementMapperParameter {
            mapping_to: ExtensionElementMapperParameterMappingTo::UnnamedSlot,
        }),
    );
    map.insert(
        b"2",
        ParameterWrapper::Real(ExtensionElementMapperParameter {
            mapping_to: ExtensionElementMapperParameterMappingTo::NamedSlot(b"second"),
        }),
    );
    map.insert(
        b"foo",
        ParameterWrapper::Real(ExtensionElementMapperParameter {
            mapping_to: ExtensionElementMapperParameterMappingTo::NamedSlot(b"foo"),
        }),
    );
    map.insert(b"alias", ParameterWrapper::Alias(b"1"));
    map
}

fn new_verbatim_parameter_map(
) -> NameMap<'static, ParameterWrapper<'static, ExtensionElementMapperVerbatimParameter<'static>>> {
    let mut map = NameMap::new();
    map.insert(
        b"1",
        ParameterWrapper::Real(ExtensionElementMapperVerbatimParameter {
            mapping_to: ExtensionElementMapperVerbatimParameterMappingTo::Attribute(b"first"),
        }),
    );
    map.insert(
        b"bar",
        ParameterWrapper::Real(ExtensionElementMapperVerbatimParameter {
            mapping_to: ExtensionElementMapperVerbatimParameterMappingTo::Attribute(b"bar"),
        }),
    );
    map.insert(
        b"baz",
        ParameterWrapper::Real(ExtensionElementMapperVerbatimParameter {
            mapping_to: ExtensionElementMapperVerbatimParameterMappingTo::Attribute(b"baz"),
        }),
    );
    map.insert(b"bar_alias", ParameterWrapper::Alias(b"bar"));
    map
}

fn name_set(names: &[&'static [u8]]) -> NameSet<'static> {
    let mut set = NameSet::new();
    for name in names {
        set.insert(name);
    }
    set
}

fn mapper(
    tag_name: &'static [u8],
    variant: Option<&'static [u8]>,
    required: &[&'static [u8]],
    required_verbatim: &[&'static [u8]],
) -> Extension<'static> {
    Extension::ElementMapper(Box::new(ExtensionElementMapper {
        tag_name,
        variant,
        parameters: new_parameter_map(),
        required_parameters: name_set(required),
        verbatim_parameters: new_verbatim_parameter_map(),
        required_verbatim_parameters: name_set(required_verbatim),
    }))
}

/// The extensions that the calls in these tests name.
fn new_block_extension_map() -> NameMap<'static, Extension<'static>> {
    let mut map = NameMap::new();
    map.insert(b"AllOptional", mapper(b"all-optional", None, &[], &[]));
    map.insert(
        b"SomeNormalRequired",
        mapper(b"some-normal-required", None, &[b"1"], &[]),
    );
    map.insert(
        b"SomeVerbatimRequired",
        mapper(b"some-verbatim-required", None, &[], &[b"bar"]),
    );
    map.insert(b"WithVariant", mapper(b"with-variant", Some(b"var"), &[], &[]));
    map.insert(b"Alias", Extension::Alias { to: b"AllOptional" });
    map
}

/// Compiles the events and executes what they compile to.
fn render(input: &str, evs: &[Event], with_block_id: bool) -> String {
    let input = input.as_bytes();
    let opts = NewCompileOptions {
        restrictions: Restrictions {
            max_call_depth_in_document: 100,
        },
    };
    let compiled = Compiler::new(&opts).compile(input, evs).unwrap();
    let map = tag_name_map();
    let extensions = new_block_extension_map();
    let executor = Executor::new(&NewExecutorOptions {
        tag_name_map: &map,
        block_extension_map: &extensions,
        should_include_block_ids: with_block_id,
    });
    let mut buf: Vec<u8> = Vec::new();
    executor.execute(&mut buf, input, evs, &compiled);
    String::from_utf8(buf).unwrap()
}

fn check(input: &str, evs: Vec<Event>, expected: &str) {
    assert_eq!(render(input, &evs, false), expected, "events: {:?}", input);
}

fn check_with_id(input: &str, evs: Vec<Event>, expected: &str) {
    assert_eq!(render(input, &evs, true), expected, "events: {:?}", input);
}

#[test]
fn it_works_in_block_phase_for_simple_events() {
    // 基础
    check("", vec![], "");
    check(
        "a:0/b:4",
        vec![
            Event::EnterParagraph(b(0)),
            ve(0, 1),
            nl(),
            Event::Text(4..5),
            exit(),
        ],
        "<p>a<br>b</p>",
    );
    check(
        "a\nb",
        vec![Event::EnterParagraph(b(0)), ve(0, 3), exit()],
        "<p>a<br>b</p>",
    );
    check(
        "",
        vec![Event::ThematicBreak(ThematicBreak {
            id: BlockId::new(0),
            line: LineNumber::new(0),
        })],
        "<hr>",
    );
    check(
        "x1:0/x2:5/x3:10/x4:16/x5:22/x6:28",
        vec![
            Event::EnterHeading1(b(0)),
            Event::EnterParagraph(b(0)),
            Event::Text(0..2),
            exit(),
            exit(),
            Event::EnterHeading2(b(0)),
            Event::EnterParagraph(b(0)),
            Event::Text(5..7),
            exit(),
            exit(),
            Event::EnterHeading3(b(0)),
            Event::EnterParagraph(b(0)),
            Event::Text(10..12),
            exit(),
            exit(),
            Event::EnterHeading4(b(0)),
            Event::EnterParagraph(b(0)),
            Event::Text(16..18),
            exit(),
            exit(),
            Event::EnterHeading5(b(0)),
            Event::EnterParagraph(b(0)),
            Event::Text(22..24),
            exit(),
            exit(),
            Event::EnterHeading6(b(0)),
            Event::EnterParagraph(b(0)),
            Event::Text(28..30),
            exit(),
            exit(),
        ],
        "<h1><p>x1</p></h1><h2><p>x2</p></h2><h3><p>x3</p></h3><h4><p>x4</p></h4><h5><p>x5</p></h5><h6><p>x6</p></h6>",
    );

    // item-likes
    check(
        "bq:0",
        vec![
            Event::EnterBlockQuote(b(0)),
            Event::EnterParagraph(b(0)),
            Event::Text(0..2),
            exit(),
            exit(),
        ],
        "<blockquote><p>bq</p></blockquote>",
    );
    check(
        "ol-a:0/ol-b:7/ul-a:14/ul-a.a:22",
        vec![
            Event::EnterOrderedList(b(0)),
            Event::EnterListItem(b(0)),
            Event::EnterParagraph(b(0)),
            Event::Text(0..4),
            exit(),
            exit(),
            Event::EnterListItem(b(0)),
            Event::EnterParagraph(b(0)),
            Event::Text(7..11),
            exit(),
            exit(),
            exit(),
            Event::EnterUnorderedList(b(0)),
            Event::EnterListItem(b(0)),
            Event::EnterParagraph(b(0)),
            Event::Text(14..18),
            exit(),
            Event::EnterUnorderedList(b(0)),
            Event::EnterListItem(b(0)),
            Event::EnterParagraph(b(0)),
            Event::Text(22..28),
            exit(),
            exit(),
            exit(),
            exit(),
            exit(),
        ],
        "<ol><li><p>ol-a</p></li><li><p>ol-b</p></li></ol><ul><li><p>ul-a</p><ul><li><p>ul-a.a</p></li></ul></li></ul>",
    );
    check(
        "A:0/Aa:4/Ab:9/B:14",
        vec![
            Event::EnterDescriptionList(b(0)),
            Event::EnterDescriptionTerm(b(0)),
            Event::EnterParagraph(b(0)),
            Event::Text(0..1),
            exit(),
            exit(),
            Event::EnterDescriptionDetails(b(0)),
            Event::EnterParagraph(b(0)),
            Event::Text(4..6),
            exit(),
            exit(),
            Event::EnterDescriptionDetails(b(0)),
            Event::EnterParagraph(b(0)),
            Event::Text(9..11),
            exit(),
            exit(),
            Event::EnterDescriptionTerm(b(0)),
            Event::EnterParagraph(b(0)),
            Event::Text(14..15),
            exit(),
            exit(),
            exit(),
        ],
        "<dl><dt><p>A</p></dt><dd><p>Aa</p></dd><dd><p>Ab</p></dd><dt><p>B</p></dt></dl>",
    );

    // 代码块
    check(
        "info:0/code:7/line 2:14",
        vec![
            Event::EnterCodeBlock(b(0)),
            Event::Text(0..4),
            Event::IndicateCodeBlockCode,
            Event::Text(7..11),
            nl(),
            Event::Text(14..20),
            exit(),
        ],
        r#"<x-code-block info-string="info" content="code&#10;line 2"></x-code-block>"#,
    );

    // 表格
    check("", vec![Event::EnterTable(b(0)), exit()], "<table></table>");
    check(
        "",
        vec![Event::EnterTable(b(0)), Event::IndicateTableRow, exit()],
        "<table><tr></tr></table>",
    );
    check(
        "",
        vec![Event::EnterTable(b(0)), Event::IndicateTableDataCell, exit()],
        "<table><tr><td></td></tr></table>",
    );
    check(
        "",
        vec![
            Event::EnterTable(b(0)),
            Event::IndicateTableRow,
            Event::IndicateTableDataCell,
            exit(),
        ],
        "<table><tr><td></td></tr></table>",
    );
    check(
        "",
        vec![Event::EnterTable(b(0)), Event::IndicateTableHeaderCell, exit()],
        "<table><tr><th></th></tr></table>",
    );
    check(
        "",
        vec![
            Event::EnterTable(b(0)),
            Event::IndicateTableRow,
            Event::IndicateTableHeaderCell,
            exit(),
        ],
        "<table><tr><th></th></tr></table>",
    );
    check(
        "",
        vec![
            Event::EnterTable(b(0)),
            Event::IndicateTableRow,
            Event::IndicateTableRow,
            exit(),
        ],
        "<table><tr></tr><tr></tr></table>",
    );
    check(
        "",
        vec![
            Event::EnterTable(b(0)),
            Event::IndicateTableDataCell,
            Event::IndicateTableDataCell,
            exit(),
        ],
        "<table><tr><td></td><td></td></tr></table>",
    );
    check(
        "data",
        vec![
            Event::EnterTable(b(0)),
            Event::EnterParagraph(b(0)),
            Event::Text(0..4),
            exit(),
            exit(),
        ],
        "<table><tr><td><p>data</p></td></tr></table>",
    );
    check(
        "data",
        vec![
            Event::EnterTable(b(0)),
            Event::IndicateTableHeaderCell,
            Event::EnterParagraph(b(0)),
            Event::Text(0..4),
            exit(),
            exit(),
        ],
        "<table><tr><th><p>data</p></th></tr></table>",
    );
    check(
        "ABCD",
        vec![
            Event::EnterTable(b(0)),
            Event::IndicateTableHeaderCell,
            Event::EnterParagraph(b(0)),
            Event::Text(0..1),
            exit(),
            Event::IndicateTableHeaderCell,
            Event::EnterParagraph(b(0)),
            Event::Text(1..2),
            exit(),
            Event::IndicateTableRow,
            Event::EnterParagraph(b(0)),
            Event::Text(2..3),
            exit(),
            Event::IndicateTableDataCell,
            Event::EnterParagraph(b(0)),
            Event::Text(3..4),
            exit(),
            exit(),
        ],
        "<table><tr><th><p>A</p></th><th><p>B</p></th></tr><tr><td><p>C</p></td><td><p>D</p></td></tr></table>",
    );

    // 表格>captions
    let caption = || {
        vec![
            Event::EnterTable(b(0)),
            Event::IndicateTableCaption,
            Event::EnterParagraph(b(0)),
            Event::Text(0..7),
            exit(),
        ]
    };
    let mut evs = caption();
    evs.push(exit());
    check(
        "CAPTION",
        evs,
        "<table><caption><p>CAPTION</p></caption></table>",
    );
    let mut evs = caption();
    evs.extend(vec![Event::IndicateTableRow, exit()]);
    check(
        "CAPTION",
        evs,
        "<table><caption><p>CAPTION</p></caption><tr></tr></table>",
    );
    let mut evs = caption();
    evs.extend(vec![
        Event::IndicateTableRow,
        Event::IndicateTableDataCell,
        exit(),
    ]);
    check(
        "CAPTION",
        evs,
        "<table><caption><p>CAPTION</p></caption><tr><td></td></tr></table>",
    );
    let mut evs = caption();
    evs.extend(vec![Event::IndicateTableHeaderCell, exit()]);
    check(
        "CAPTION",
        evs,
        "<table><caption><p>CAPTION</p></caption><tr><th></th></tr></table>",
    );
    let mut evs = caption();
    evs.extend(vec![Event::IndicateTableDataCell, exit()]);
    check(
        "CAPTION",
        evs,
        "<table><caption><p>CAPTION</p></caption><tr><td></td></tr></table>",
    );

    // 表格>嵌套
    check(
        "CAPTION:0/DATA:10",
        vec![
            Event::EnterTable(b(0)),
            Event::IndicateTableCaption,
            Event::EnterTable(b(0)),
            Event::IndicateTableCaption,
            Event::EnterParagraph(b(0)),
            Event::Text(0..7),
            exit(),
            Event::IndicateTableDataCell,
            Event::EnterParagraph(b(0)),
            Event::Text(10..14),
            exit(),
            exit(),
            Event::IndicateTableDataCell,
            Event::EnterTable(b(0)),
            Event::IndicateTableCaption,
            Event::EnterParagraph(b(0)),
            Event::Text(0..7),
            exit(),
            exit(),
            exit(),
        ],
        "<table><caption><table><caption><p>CAPTION</p></caption><tr><td><p>DATA</p></td></tr></table></caption><tr><td><table><caption><p>CAPTION</p></caption></table></td></tr></table>",
    );

    // Wiki链接
    check(
        "ADDR:0/title:10",
        vec![
            Event::EnterParagraph(b(0)),
            Event::EnterWikiLink(0..4),
            Event::Text(7..12),
            Event::ExitInline,
            exit(),
        ],
        r#"<p><x-wiki-link address="ADDR">title</x-wiki-link></p>"#,
    );

    // XSS
    check(
        r#"<script>"#,
        vec![Event::EnterParagraph(b(0)), Event::Text(0..8), exit()],
        r#"<p>&lt;script></p>"#,
    );
    check(
        r#"">"#,
        vec![
            Event::EnterCodeBlock(b(0)),
            Event::Text(0..2),
            Event::IndicateCodeBlockCode,
            Event::Text(0..2),
            exit(),
        ],
        r#"<x-code-block info-string="&quot;>" content="&quot;>"></x-code-block>"#,
    );
}

#[test]
fn it_works_in_block_phase_for_simple_events_with_feature_block_id() {
    check_with_id(
        "",
        vec![Event::ThematicBreak(ThematicBreak {
            id: BlockId::new(1),
            line: LineNumber::new(0),
        })],
        r#"<hr data-block-id="1">"#,
    );
    check_with_id(
        "foo",
        vec![Event::EnterParagraph(b(1)), Event::Text(0..3), exit_id(1)],
        r#"<p data-block-id="1">foo</p>"#,
    );
    check_with_id(
        "foo:0/bar:6",
        vec![
            Event::EnterTable(b(1)),
            Event::IndicateTableHeaderCell,
            Event::EnterParagraph(b(2)),
            Event::Text(0..3),
            exit_id(2),
            Event::IndicateTableRow,
            Event::EnterParagraph(b(3)),
            Event::Text(6..9),
            exit_id(3),
            exit_id(1),
        ],
        r#"<table data-block-id="1"><tr><th><p data-block-id="2">foo</p></th></tr><tr><td><p data-block-id="3">bar</p></td></tr></table>"#,
    );
}

#[test]
fn it_works_in_inline_phase() {
    // 引用链接
    check(
        "TP.abc",
        vec![Event::RefLink(0..6)],
        r#"<x-ref-link address="TP.abc"></x-ref-link>"#,
    );
    // Dicexp
    check(
        "d100",
        vec![Event::Dicexp(0..4)],
        r#"<x-dicexp code="d100"></x-dicexp>"#,
    );
    // 加粗强调与删除线
    check(
        "foo",
        vec![Event::EnterStrong, Event::Text(0..3), Event::ExitInline],
        r#"<strong>foo</strong>"#,
    );
    check(
        "foo",
        vec![Event::EnterStrikethrough, Event::Text(0..3), Event::ExitInline],
        r#"<s>foo</s>"#,
    );
    check(
        "foo:0/bar:6/baz:12",
        vec![
            Event::EnterStrong,
            Event::EnterStrikethrough,
            Event::Text(0..3),
            Event::ExitInline,
            Event::EnterStrong,
            Event::Text(6..9),
            Event::ExitInline,
            Event::Text(12..15),
            Event::ExitInline,
        ],
        r#"<strong><s>foo</s><strong>bar</strong>baz</strong>"#,
    );
    // XSS
    check(
        r#"""#,
        vec![Event::Dicexp(0..1)],
        r#"<x-dicexp code="&quot;"></x-dicexp>"#,
    );
}

#[test]
fn text_escaping_covers_ampersands_and_code_spans_and_ruby() {
    check(
        "a&b<c>",
        vec![
            Event::EnterCodeSpan,
            Event::EnterEmphasis,
            Event::EnterRuby,
            Event::EnterRubyText,
            Event::Text(0..6),
            Event::ExitInline,
            Event::ExitInline,
            Event::ExitInline,
            Event::ExitInline,
        ],
        "<code><em><ruby><rt>a&amp;b&lt;c></rt></ruby></em></code>",
    );
    check(
        "x<y",
        vec![Event::Raw(0..3)],
        "x<y",
    );
    check(
        "a&\"",
        vec![Event::RefLink(0..3)],
        r#"<x-ref-link address="a&amp;&quot;"></x-ref-link>"#,
    );
}

#[test]
fn rendering_two_runs_in_turn_equals_rendering_them_as_one() {
    let input = "ABCD";
    let evs = vec![
        Event::EnterTable(b(0)),
        Event::IndicateTableHeaderCell,
        Event::EnterParagraph(b(0)),
        Event::Text(0..1),
        exit(),
        Event::IndicateTableRow,
        Event::EnterCodeBlock(b(0)),
        Event::Text(1..2),
        Event::IndicateCodeBlockCode,
        Event::Text(2..4),
        exit(),
        exit(),
    ];
    let map = tag_name_map();
    let renderer = Renderer::new(NewRendererOptions {
        tag_name_map: &map,
        should_include_block_ids: false,
    });
    let mut whole: Vec<u8> = Vec::new();
    let mut stack: Vec<StackEntryBox> = Vec::new();
    renderer.render_events(&mut whole, input.as_bytes(), &evs, &mut stack);
    for split in [0, 3, 5, 6, 11, 12] {
        let mut parts: Vec<u8> = Vec::new();
        let mut stack: Vec<StackEntryBox> = Vec::new();
        renderer.render_events(&mut parts, input.as_bytes(), &evs[..split], &mut stack);
        renderer.render_events(&mut parts, input.as_bytes(), &evs[split..], &mut stack);
        assert_eq!(parts, whole, "split at {}", split);
        assert!(stack.is_empty());
    }
    assert_eq!(
        String::from_utf8(whole).unwrap(),
        r#"<table><tr><th><p>A</p></th></tr><tr><td><x-code-block info-string="B" content="CD"></x-code-block></td></tr></table>"#
    );
}

fn ext_call(start: usize, end: usize) -> Event {
    ext_call_id(start, end, 0)
}

fn ext_call_id(start: usize, end: usize, id: usize) -> Event {
    Event::EnterCallOnExtension(Call::Block {
        id: BlockId::new(id),
        name: start..end,
    })
}

fn normal_arg(name: Option<std::ops::Range<usize>>) -> Event {
    Event::IndicateCallNormalArgument(name)
}

fn verbatim_arg(name: Option<std::ops::Range<usize>>) -> Event {
    Event::IndicateCallVerbatimArgument(name)
}

fn para() -> Event {
    Event::EnterParagraph(b(0))
}

#[test]
fn it_works_in_block_phase_for_events_involving_calls() {
    // 调用>扩展
    check(
        "AllOptional",
        vec![ext_call(0, 11), exit()],
        r#"<all-optional></all-optional>"#,
    );
    check(
        "AllOptional:0/1_content:14",
        vec![
            ext_call(0, 11),
            normal_arg(None),
            para(),
            Event::Text(14..23),
            exit(),
            exit(),
        ],
        r#"<all-optional><p>1_content</p></all-optional>"#,
    );
    check(
        "AllOptional:0/first_content:14",
        vec![ext_call(0, 11), verbatim_arg(None), Event::Text(14..27), exit()],
        r#"<all-optional first="first_content"></all-optional>"#,
    );
    check(
        "AllOptional:0/1:14/1_content:19",
        vec![
            ext_call(0, 11),
            normal_arg(Some(14..15)),
            para(),
            Event::Text(19..28),
            exit(),
            exit(),
        ],
        r#"<all-optional><p>1_content</p></all-optional>"#,
    );
    check(
        "AllOptional:0/1_content:14/2_content:27",
        vec![
            ext_call(0, 11),
            normal_arg(None),
            para(),
            Event::Text(14..23),
            exit(),
            normal_arg(None),
            para(),
            Event::Text(27..36),
            exit(),
            exit(),
        ],
        r#"<all-optional><p>1_content</p><div slot="second"><p>2_content</p></div></all-optional>"#,
    );
    check(
        "AllOptional:0/1_content:14/foo:27/foo_content:34",
        vec![
            ext_call(0, 11),
            normal_arg(None),
            para(),
            Event::Text(14..23),
            exit(),
            normal_arg(Some(27..30)),
            para(),
            Event::Text(34..45),
            exit(),
            exit(),
        ],
        r#"<all-optional><p>1_content</p><div slot="foo"><p>foo_content</p></div></all-optional>"#,
    );
    check(
        "AllOptional:0/bar:14/bar_content:21",
        vec![
            ext_call(0, 11),
            verbatim_arg(Some(14..17)),
            Event::Text(21..32),
            exit(),
        ],
        r#"<all-optional bar="bar_content"></all-optional>"#,
    );
    check(
        "AllOptional:0/bar:14/bar_content:21/baz:36/baz_content:43",
        vec![
            ext_call(0, 11),
            verbatim_arg(Some(14..17)),
            Event::Text(21..32),
            verbatim_arg(Some(36..39)),
            Event::Text(43..54),
            exit(),
        ],
        r#"<all-optional bar="bar_content" baz="baz_content"></all-optional>"#,
    );
    check(
        "AllOptional:0/1_content:14/foo:27/foo_content:34/bar:49/bar_content:56/baz:71/baz_content:78",
        vec![
            ext_call(0, 11),
            normal_arg(None),
            para(),
            Event::Text(14..23),
            exit(),
            normal_arg(Some(27..30)),
            para(),
            Event::Text(34..45),
            exit(),
            verbatim_arg(Some(49..52)),
            Event::Text(56..67),
            verbatim_arg(Some(71..74)),
            Event::Text(78..89),
            exit(),
        ],
        r#"<all-optional bar="bar_content" baz="baz_content"><p>1_content</p><div slot="foo"><p>foo_content</p></div></all-optional>"#,
    );
    check(
        "AllOptional:0/bar:14/bar_content:21/1_content:36/baz:49/baz_content:56/foo:71/foo_content:78",
        vec![
            ext_call(0, 11),
            verbatim_arg(Some(14..17)),
            Event::Text(21..32),
            normal_arg(None),
            para(),
            Event::Text(36..45),
            exit(),
            verbatim_arg(Some(49..52)),
            Event::Text(56..67),
            normal_arg(Some(71..74)),
            para(),
            Event::Text(78..89),
            exit(),
            exit(),
        ],
        r#"<all-optional bar="bar_content" baz="baz_content"><p>1_content</p><div slot="foo"><p>foo_content</p></div></all-optional>"#,
    );

    // 调用>扩展>必要参数
    check(
        "SomeNormalRequired",
        vec![ext_call(0, 18), exit()],
        r#"<x-block-call-error call-type="extension" call-name="SomeNormalRequired" error-type="BadParameters" error-value="!1;"></x-block-call-error>"#,
    );
    check(
        "SomeNormalRequired:0/test:21",
        vec![
            ext_call(0, 18),
            normal_arg(None),
            para(),
            Event::Text(21..25),
            exit(),
            exit(),
        ],
        r#"<some-normal-required><p>test</p></some-normal-required>"#,
    );
    check(
        "SomeVerbatimRequired",
        vec![ext_call(0, 20), exit()],
        r#"<x-block-call-error call-type="extension" call-name="SomeVerbatimRequired" error-type="BadParameters" error-value=";!bar"></x-block-call-error>"#,
    );
    check(
        "SomeVerbatimRequired:0/bar:23",
        vec![ext_call(0, 20), verbatim_arg(Some(23..26)), exit()],
        r#"<some-verbatim-required bar=""></some-verbatim-required>"#,
    );

    // 调用>扩展>变体
    check(
        "WithVariant",
        vec![ext_call(0, 11), exit()],
        r#"<with-variant variant="var"></with-variant>"#,
    );

    // 调用>扩展>扩展别名
    check(
        "Alias",
        vec![ext_call(0, 5), exit()],
        r#"<all-optional></all-optional>"#,
    );

    // 调用>扩展>参数别名
    check(
        "AllOptional:0/alias:14/foo:23",
        vec![
            ext_call(0, 11),
            normal_arg(Some(14..19)),
            para(),
            Event::Text(23..26),
            exit(),
            exit(),
        ],
        r#"<all-optional><p>foo</p></all-optional>"#,
    );
    check(
        "AllOptional:0/alias:14/foo:23",
        vec![
            ext_call(0, 11),
            normal_arg(Some(14..19)),
            para(),
            Event::Text(23..26),
            exit(),
            exit(),
        ],
        r#"<all-optional><p>foo</p></all-optional>"#,
    );
    check(
        "AllOptional:0/alias:14/foo:23",
        vec![
            ext_call(0, 11),
            normal_arg(None),
            para(),
            Event::Text(23..26),
            exit(),
            normal_arg(Some(14..19)),
            para(),
            Event::Text(23..26),
            exit(),
            exit(),
        ],
        r#"<x-block-call-error call-type="extension" call-name="AllOptional" error-type="BadParameters" error-value="=1;"></x-block-call-error>"#,
    );
    check(
        "AllOptional:0/alias:14/foo:23",
        vec![
            ext_call(0, 11),
            normal_arg(Some(14..19)),
            para(),
            Event::Text(23..26),
            exit(),
            normal_arg(None),
            para(),
            Event::Text(23..26),
            exit(),
            exit(),
        ],
        r#"<x-block-call-error call-type="extension" call-name="AllOptional" error-type="BadParameters" error-value="=1;"></x-block-call-error>"#,
    );
    check(
        "AllOptional:0/alias:14/foo:23/1:30",
        vec![
            ext_call(0, 11),
            normal_arg(Some(30..31)),
            para(),
            Event::Text(23..26),
            exit(),
            normal_arg(Some(14..19)),
            para(),
            Event::Text(23..26),
            exit(),
            exit(),
        ],
        r#"<x-block-call-error call-type="extension" call-name="AllOptional" error-type="BadParameters" error-value="=1;"></x-block-call-error>"#,
    );
}

#[test]
fn it_works_in_block_phase_for_events_involving_calls_with_feature_block_id() {
    check_with_id(
        "Alias",
        vec![ext_call_id(0, 5, 1), exit()],
        r#"<all-optional data-block-id="1"></all-optional>"#,
    );
}

#[test]
fn calls_of_unknown_extensions_and_of_templates_render_as_errors() {
    check(
        "Nope",
        vec![ext_call(0, 4), exit()],
        r#"<x-block-call-error call-type="extension" call-name="Nope" error-type="UnknownCallee" error-value="Nope"></x-block-call-error>"#,
    );
    check(
        "Tpl",
        vec![
            Event::EnterCallOnTemplate(Call::Block {
                id: BlockId::new(2),
                name: 0..3,
            }),
            exit(),
        ],
        r#"<x-block-call-error call-type="transclusion" call-name="Tpl" error-type="TODO"></x-block-call-error>"#,
    );
    check_with_id(
        "Tpl",
        vec![
            Event::EnterCallOnTemplate(Call::Block {
                id: BlockId::new(2),
                name: 0..3,
            }),
            exit(),
        ],
        r#"<x-block-call-error call-type="transclusion" call-name="Tpl" error-type="TODO" data-block-id="2"></x-block-call-error>"#,
    );
}

#[test]
fn bad_parameters_are_listed_once_each_and_escaped() {
    // Unknown names, given twice, are listed once; `~`, `,` and `;` are
    // escaped.
    check(
        "AllOptional:0/a~,;b:14/x:20",
        vec![
            ext_call(0, 11),
            verbatim_arg(Some(14..19)),
            Event::Text(20..21),
            verbatim_arg(Some(14..19)),
            Event::Text(20..21),
            exit(),
        ],
        r#"<x-block-call-error call-type="extension" call-name="AllOptional" error-type="BadParameters" error-value=";?a~0~1~2b"></x-block-call-error>"#,
    );
    // Missing, unknown and duplicated normal parameters together.
    check(
        "SomeNormalRequired:0/zz:21/foo:27",
        vec![
            ext_call(0, 18),
            normal_arg(Some(21..23)),
            para(),
            Event::Text(21..23),
            exit(),
            normal_arg(Some(27..30)),
            para(),
            Event::Text(27..30),
            exit(),
            normal_arg(Some(27..30)),
            para(),
            Event::Text(27..30),
            exit(),
            exit(),
        ],
        r#"<x-block-call-error call-type="extension" call-name="SomeNormalRequired" error-type="BadParameters" error-value="!1,?zz,=foo;"></x-block-call-error>"#,
    );
    // A verbatim parameter given by another name counts under its own.
    check(
        "AllOptional:0/bar:14/bar_alias:21",
        vec![
            ext_call(0, 11),
            verbatim_arg(Some(14..17)),
            Event::Text(14..17),
            verbatim_arg(Some(21..30)),
            Event::Text(21..30),
            exit(),
        ],
        r#"<x-block-call-error call-type="extension" call-name="AllOptional" error-type="BadParameters" error-value=";=bar"></x-block-call-error>"#,
    );
}

#[test]
fn executing_a_document_without_calls_renders_its_events() {
    let input = "foo:0/bar:6";
    let evs = vec![
        Event::EnterBlockQuote(b(1)),
        Event::EnterParagraph(b(2)),
        Event::Text(0..3),
        exit(),
        exit(),
        Event::EnterParagraph(b(3)),
        Event::Text(6..9),
        exit(),
    ];
    let map = tag_name_map();
    let renderer = Renderer::new(NewRendererOptions {
        tag_name_map: &map,
        should_include_block_ids: true,
    });
    let mut direct: Vec<u8> = Vec::new();
    let mut stack: Vec<StackEntryBox> = Vec::new();
    renderer.render_events(&mut direct, input.as_bytes(), &evs, &mut stack);
    let executed = render(input, &evs, true);
    assert_eq!(executed, String::from_utf8(direct).unwrap());
    assert_eq!(
        executed,
        r#"<blockquote data-block-id="1"><p data-block-id="2">foo</p></blockquote><p data-block-id="3">bar</p>"#
    );
}
