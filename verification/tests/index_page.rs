use std::convert::TryInto;
use vimwiki::elements::blocks::{BlockElement, Header, List, Paragraph};
use vimwiki::elements::page::Page;
use vimwiki::lang::RawStr;
use vimwiki::located::Located;

const INDEX_PAGE: &str = "\
= Vimwiki Wiki =

*Welcome to the Vimwiki wiki!*

== Official Repositories ==

Here are links to the official Vimwiki repositories:

- [[https://github.com/vimwiki/vimwiki|Vimwiki]]
- [[https://vimwiki.github.io/vimwikiwiki/|Vimwiki Wiki]] (GitHub pages site built using Vimwiki)
    - [[https://github.com/vimwiki/vimwikiwiki|source repository]]
- [[https://github.com/vimwiki/utils|Utilities]]
- [[https://github.com/vimwiki/testwikis|Test wikis]] - sample wikis in each of
  the 3 syntax variants. Used for testing and development.

== Wiki Pages ==

Checkout these pages for additional information and tips!

- [[Tips and Snips]]
- [[Related Tools]]
- [[Troubleshooting]]

== Chat/Forums ==

- [[https://groups.google.com/forum/#!forum/vimwiki|Google Vimwiki group]]
- [[https://webchat.freenode.net/?channels=#vimwiki|Freenode Webchat]]

== Outdated Versions ==

These links point to some old versions of Vimwiki that are no longer maintained.
The original Vimwiki was hosted on Google Code which has since shutdown.

- [[https://code.google.com/archive/p/vimwiki/|Google Code Archive]]
- [[https://github.com/vimwiki-backup/vimwiki|Google Code Backup on Github]]
- [[https://www.vim.org/scripts/script.php?script_id=2226|Vimwiki on vim.org]]

== Related Projects ==

- [[https://github.com/lervag/wiki.vim|wiki.vim]]
- [[https://github.com/fcpg/vim-waikiki|vim-waikiki]]
- [[https://github.com/jceb/vim-orgmode|vim-orgmode]]
- [[https://github.com/tbabej/taskwiki|taskwiki]]
- [[https://github.com/xolox/vim-notes|vim-notes]]
";

fn header_of(text: &str) -> BlockElement<'static> {
    let h: Located<Header> = RawStr::Vimwiki(text).try_into().unwrap();
    BlockElement::Header(h.value.into_owned())
}

fn paragraph_of(text: &str) -> BlockElement<'static> {
    let p: Located<Paragraph> = RawStr::Vimwiki(text).try_into().unwrap();
    BlockElement::Paragraph(p.value.into_owned())
}

fn list_of(text: &str) -> BlockElement<'static> {
    let l: Located<List> = RawStr::Vimwiki(text).try_into().unwrap();
    BlockElement::List(l.value.into_owned())
}

fn blank_line() -> BlockElement<'static> {
    BlockElement::BlankLine
}

fn at(
    element: BlockElement<'static>,
    region: (usize, usize, usize, usize),
) -> (BlockElement<'static>, (usize, usize, usize, usize)) {
    (element, region)
}

#[test]
fn test() {
    let page: Located<Page> = RawStr::Vimwiki(INDEX_PAGE).try_into().unwrap();
    let expected = vec![
        at(header_of("= Vimwiki Wiki ="), (1, 1, 1, 17)),
        at(blank_line(), (2, 1, 2, 1)),
        at(paragraph_of("*Welcome to the Vimwiki wiki!*"), (3, 1, 3, 31)),
        at(blank_line(), (4, 1, 4, 1)),
        at(header_of("== Official Repositories =="), (5, 1, 5, 28)),
        at(blank_line(), (6, 1, 6, 1)),
        at(paragraph_of("Here are links to the official Vimwiki repositories:"), (7, 1, 7, 53)),
        at(blank_line(), (8, 1, 8, 1)),
        at(
            list_of(
                "\
- [[https://github.com/vimwiki/vimwiki|Vimwiki]]
- [[https://vimwiki.github.io/vimwikiwiki/|Vimwiki Wiki]] (GitHub pages site built using Vimwiki)
    - [[https://github.com/vimwiki/vimwikiwiki|source repository]]
- [[https://github.com/vimwiki/utils|Utilities]]
- [[https://github.com/vimwiki/testwikis|Test wikis]] - sample wikis in each of
  the 3 syntax variants. Used for testing and development.",
            ),
            (9, 1, 14, 59),
        ),
        at(blank_line(), (15, 1, 15, 1)),
        at(header_of("== Wiki Pages =="), (16, 1, 16, 17)),
        at(blank_line(), (17, 1, 17, 1)),
        at(
            paragraph_of("Checkout these pages for additional information and tips!"),
            (18, 1, 18, 58),
        ),
        at(blank_line(), (19, 1, 19, 1)),
        at(
            list_of(
                "\
- [[Tips and Snips]]
- [[Related Tools]]
- [[Troubleshooting]]",
            ),
            (20, 1, 22, 22),
        ),
        at(blank_line(), (23, 1, 23, 1)),
        at(header_of("== Chat/Forums =="), (24, 1, 24, 18)),
        at(blank_line(), (25, 1, 25, 1)),
        at(
            list_of(
                "\
- [[https://groups.google.com/forum/#!forum/vimwiki|Google Vimwiki group]]
- [[https://webchat.freenode.net/?channels=#vimwiki|Freenode Webchat]]",
            ),
            (26, 1, 27, 71),
        ),
        at(blank_line(), (28, 1, 28, 1)),
        at(header_of("== Outdated Versions =="), (29, 1, 29, 24)),
        at(blank_line(), (30, 1, 30, 1)),
        at(
            paragraph_of(
                "\
These links point to some old versions of Vimwiki that are no longer maintained.
The original Vimwiki was hosted on Google Code which has since shutdown.",
            ),
            (31, 1, 32, 73),
        ),
        at(blank_line(), (33, 1, 33, 1)),
        at(
            list_of(
                "\
- [[https://code.google.com/archive/p/vimwiki/|Google Code Archive]]
- [[https://github.com/vimwiki-backup/vimwiki|Google Code Backup on Github]]
- [[https://www.vim.org/scripts/script.php?script_id=2226|Vimwiki on vim.org]]",
            ),
            (34, 1, 36, 79),
        ),
        at(blank_line(), (37, 1, 37, 1)),
        at(header_of("== Related Projects =="), (38, 1, 38, 23)),
        at(blank_line(), (39, 1, 39, 1)),
        at(
            list_of(
                "\
- [[https://github.com/lervag/wiki.vim|wiki.vim]]
- [[https://github.com/fcpg/vim-waikiki|vim-waikiki]]
- [[https://github.com/jceb/vim-orgmode|vim-orgmode]]
- [[https://github.com/tbabej/taskwiki|taskwiki]]
- [[https://github.com/xolox/vim-notes|vim-notes]]",
            ),
            (40, 1, 44, 51),
        ),
    ];

    assert_eq!(page.value.elements.len(), expected.len());
    for (found, (element, region)) in page.value.elements.iter().zip(expected.iter()) {
        assert_eq!(&found.value, element);
        let r = found.region;
        assert_eq!((r.start_line, r.start_col, r.end_line, r.end_col), *region);
    }
    assert!(page.value.comments.is_empty());
}
