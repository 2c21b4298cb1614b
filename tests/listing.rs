use xdcc_mule::listing::{
    adapt_script_line, catalog_row, extract_database_info, filter_valid_entries,
    search_pattern_of,
};

#[test]
fn index_lines_become_entries_with_their_network() {
    let text = "[servers]\r\n0=net*irc.one.example*6667\r\n1=#alpha*http://a/list.txt\r\n\
                2=#beta*http://b/list.txt*x\nbad line\n[x]\n0=*irc.two\n3=#gamma*http://g\n";
    let e = extract_database_info(text);
    assert_eq!(e.len(), 3);
    assert_eq!(e[0].channel_name, "#alpha");
    assert_eq!(e[0].script_url, "http://a/list.txt");
    assert_eq!(e[0].network, "irc.one.example");
    assert_eq!(e[1].channel_name, "#beta");
    assert_eq!(e[1].script_url, "http://b/list.txt");
    assert_eq!(e[2].channel_name, "#gamma");
    assert_eq!(e[2].network, "irc.two");
}

#[test]
fn index_entry_before_any_network_has_empty_network() {
    let e = extract_database_info("1=#a*u");
    assert_eq!(e.len(), 1);
    assert_eq!(e[0].network, "");
    assert_eq!(extract_database_info("").len(), 0);
    assert_eq!(extract_database_info("1=#a").len(), 0);
}

#[test]
fn script_lines_to_rows() {
    let words = adapt_script_line("  #12  Bot  1.2G  My   Movie  File.mkv ");
    assert_eq!(words, vec!["#12", "Bot", "1.2G", "My", "Movie", "File.mkv"]);
    assert!(filter_valid_entries(&words));
    assert!(!filter_valid_entries(&adapt_script_line("#1 Bot 2M")));
    let row = catalog_row(&words, &"#chan".to_string(), &"net".to_string());
    assert_eq!(row.file_number, "#12");
    assert_eq!(row.bot_name, "Bot");
    assert_eq!(row.file_size, "1.2G");
    assert_eq!(row.file_name, "My Movie File.mkv");
    assert_eq!(row.channel_name, "#chan");
    assert_eq!(row.network, "net");
}

#[test]
fn search_pattern_joins_words() {
    assert_eq!(search_pattern_of("  big  buck bunny "), "%big%buck%bunny%");
    assert_eq!(search_pattern_of("x"), "%x%");
    assert_eq!(search_pattern_of(""), "%%");
}
