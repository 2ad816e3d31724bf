use forever_addons::domain::version::AddonVersion;
use forever_addons::wow::toc::{strip_color_escapes, InterfaceVersion, Toc, TocDirective};

const BAGNON: &str = "## Interface: 16001\n\
    ## Title: Bagnon\n\
    ## Version: 2.13.3\n\
    ## Author: Tuller\n\
    ## Notes: Displays your bags as a single inventory\n\
    ## X-Curse-Project-ID: 3541\n\
    ## SavedVariables: BagnonDB\n\
    \n\
    main.lua\n\
    core\\bagnon.lua\n";

#[test]
fn reads_the_known_directives_from_a_real_toc() {
    let toc = Toc::parse(BAGNON);

    assert_eq!(toc.interface(), Some(InterfaceVersion::forever()));
    assert_eq!(toc.title().as_deref(), Some("Bagnon"));
    assert_eq!(toc.version().map(AddonVersion::as_str), Some("2.13.3"));
    assert_eq!(toc.author(), Some("Tuller"));
}

#[test]
fn preserves_unknown_directives_instead_of_dropping_them() {
    let toc = Toc::parse(BAGNON);

    assert!(toc.directives.contains(&TocDirective::Unknown {
        key: "X-Curse-Project-ID".to_owned(),
        value: "3541".to_owned(),
    }));
    assert!(toc.directives.contains(&TocDirective::Unknown {
        key: "SavedVariables".to_owned(),
        value: "BagnonDB".to_owned(),
    }));
}

#[test]
fn preserves_an_unparseable_interface_number_as_unknown() {
    let toc = Toc::parse("## Interface: 16001a\n");

    assert_eq!(toc.interface(), None);
    assert_eq!(
        toc.directives,
        vec![TocDirective::Unknown {
            key: "Interface".to_owned(),
            value: "16001a".to_owned(),
        }]
    );
}

#[test]
fn ignores_file_lines_and_comments_without_a_key() {
    let toc = Toc::parse("# plain comment\nmain.lua\n## \n##NoColon\n");
    assert!(toc.directives.is_empty());
}

#[test]
fn strips_color_escapes_from_a_title() {
    let toc = Toc::parse("## Title: |cff00ff00Deadly|r Boss Mods\n");
    assert_eq!(toc.title().as_deref(), Some("Deadly Boss Mods"));
}

#[test]
fn keeps_an_escaped_literal_pipe_in_a_title() {
    let toc = Toc::parse("## Title: Damage || Healing\n");
    assert_eq!(toc.title().as_deref(), Some("Damage | Healing"));
}

#[test]
fn accepts_only_the_forever_interface_band() {
    assert!(InterfaceVersion::forever().loads_on_forever());
    assert!(InterfaceVersion::new(16000).loads_on_forever());
    assert!(!InterfaceVersion::new(11509).loads_on_forever());
    assert!(!InterfaceVersion::new(110200).loads_on_forever());
}

#[test]
fn reads_every_number_of_a_comma_delimited_interface_list() {
    let toc = Toc::parse("## Interface: 110200, 16001\n");

    assert_eq!(
        toc.interfaces(),
        vec![InterfaceVersion::new(110200), InterfaceVersion::forever()]
    );
    assert_eq!(toc.interface(), Some(InterfaceVersion::new(110200)));
}

#[test]
fn preserves_a_half_unparseable_interface_list_as_unknown() {
    let toc = Toc::parse("## Interface: 16001, next\n");

    assert!(toc.interfaces().is_empty());
    assert_eq!(
        toc.directives,
        vec![TocDirective::Unknown {
            key: "Interface".to_owned(),
            value: "16001, next".to_owned(),
        }]
    );
}

// Beyond the original's own cases.

#[test]
fn the_forever_interface_is_16001_and_the_band_ends_below_20000() {
    assert_eq!(InterfaceVersion::forever().get(), 16001);
    assert!(InterfaceVersion::new(19999).loads_on_forever());
    assert!(!InterfaceVersion::new(20000).loads_on_forever());
    assert!(!InterfaceVersion::new(15999).loads_on_forever());
}

#[test]
fn reads_notes_and_keeps_the_first_of_repeated_directives() {
    let toc = Toc::parse("## Notes: first\n## Notes: second\n## Title: A\n## Title: B\n");
    assert_eq!(toc.notes(), Some("first"));
    assert_eq!(toc.title().as_deref(), Some("A"));
}

#[test]
fn color_escapes_and_their_resets_are_removed() {
    assert_eq!(strip_color_escapes("|cFFAABBCCRed|r text"), "Red text");
    assert_eq!(strip_color_escapes("a||b"), "a|b");
    assert_eq!(strip_color_escapes("plain"), "plain");
}

#[test]
fn reads_every_line_on_its_own_wherever_it_stands() {
    let head = "## Interface: 16001\nmain.lua\n";
    let tail = "## Title: Late Title\n";
    let whole = Toc::parse(&format!("{head}{tail}"));
    let mut expected = Toc::parse(head).directives;
    expected.extend(Toc::parse(tail).directives);
    assert_eq!(whole.directives, expected);
    assert_eq!(whole.title().as_deref(), Some("Late Title"));
}
