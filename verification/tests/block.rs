use lint::{Block, BlockKind, HeadingLevel, LineSpan};

#[test]
fn span_keeps_first_and_last() {
    let span = LineSpan::new(2, 5);
    assert_eq!(span.first(), 2);
    assert_eq!(span.last(), 5);
}

#[test]
fn span_never_ends_before_it_starts() {
    let span = LineSpan::new(4, 1);
    assert_eq!(span.first(), 4);
    assert_eq!(span.last(), 4);
}

#[test]
fn every_code_kind_is_code() {
    assert!(BlockKind::FencedCode.is_code());
    assert!(BlockKind::IndentedCode.is_code());
}

const LEVELS: [HeadingLevel; 6] = [
    HeadingLevel::H1,
    HeadingLevel::H2,
    HeadingLevel::H3,
    HeadingLevel::H4,
    HeadingLevel::H5,
    HeadingLevel::H6,
];

#[test]
fn heading_levels_number_and_deepen() {
    let numbers: Vec<u8> = LEVELS.iter().map(|level| level.number()).collect();
    assert_eq!(numbers, [1, 2, 3, 4, 5, 6]);

    let deeper: Vec<Option<HeadingLevel>> = LEVELS.iter().map(|level| level.deeper()).collect();
    assert_eq!(
        deeper,
        [
            Some(HeadingLevel::H2),
            Some(HeadingLevel::H3),
            Some(HeadingLevel::H4),
            Some(HeadingLevel::H5),
            Some(HeadingLevel::H6),
            None,
        ]
    );

    let mut ordered = LEVELS;
    ordered.reverse();
    ordered.sort();
    assert_eq!(ordered, LEVELS);
}

#[test]
fn each_kind_answers_its_queries() {
    // (kind, is_code, heading level, is_html, is_container)
    let cases = [
        (BlockKind::FencedCode, true, None, false, false),
        (BlockKind::IndentedCode, true, None, false, false),
        (
            BlockKind::Heading(HeadingLevel::H3),
            false,
            Some(HeadingLevel::H3),
            false,
            false,
        ),
        (BlockKind::Html, false, None, true, false),
        (BlockKind::BlockQuote, false, None, false, true),
        (BlockKind::List, false, None, false, true),
    ];

    for (kind, is_code, heading_level, is_html, is_container) in cases {
        assert_eq!(kind.is_code(), is_code, "{kind:?}");
        assert_eq!(kind.heading_level(), heading_level, "{kind:?}");
        assert_eq!(kind.is_html(), is_html, "{kind:?}");
        assert_eq!(kind.is_container(), is_container, "{kind:?}");
    }

    for level in LEVELS {
        assert_eq!(
            BlockKind::Heading(level).heading_level(),
            Some(level),
            "{level:?}"
        );
    }
}

#[test]
fn block_stays_fixed_size() {
    fn assert_copy<T: Copy>() {}
    assert_copy::<Block>();
    assert!(
        std::mem::size_of::<Block>() <= 24,
        "{} bytes",
        std::mem::size_of::<Block>()
    );
}

#[test]
fn block_accessors_return_constructed_values() {
    let span = LineSpan::new(1, 3);
    let block = Block::new(BlockKind::IndentedCode, span);
    assert_eq!(block.kind(), BlockKind::IndentedCode);
    assert_eq!(block.lines(), span);
}

#[test]
fn every_level_is_one_deeper_than_the_one_before() {
    for pair in LEVELS.windows(2) {
        assert_eq!(pair[0].deeper(), Some(pair[1]));
        assert_eq!(pair[0].number() + 1, pair[1].number());
    }
}
