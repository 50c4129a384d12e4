use minigrep::mysql;
use minigrep::mysql::mycnf::{self, MyCnfFile};
use minigrep::text;

const MY_CNF: &str = "# For advice on how to change settings please see
# http://dev.mysql.com/doc/refman/5.7/en/server-configuration-defaults.html

[mysqld]
#
# Remove leading # and set to the amount of RAM for the most important data
# cache in MySQL. Start at 70% of total RAM for dedicated server, else 10%.
# innodb_buffer_pool_size = 128M
#
# Remove leading # to turn on a very important data integrity option: logging
# changes to the binary log between backups.
# log_bin
#
# Remove leading # to set options mainly useful for reporting servers.
# The server defaults are faster for transactions and consistent reads.
# join_buffer_size = 128M
# sort_buffer_size = 2M
# read_rnd_buffer_size = 2M
datadir=/var/lib/mysql
socket=/var/lib/mysql/mysql.sock

# Disabling symbolic-links is recommended to prevent assorted security risks
symbolic-links=0

log-error=/var/log/mysqld.log
pid-file=/var/run/mysqld/mysqld.pid
";

fn lines_of(text: &str) -> Vec<String> {
    text.lines().map(|l| l.to_string()).collect()
}

fn block_lines(cnf: &MyCnfFile, i: usize) -> Vec<String> {
    cnf.blocks()[i].lines().clone()
}

#[test]
fn mycnf_test_get_lines() {
    let mut mycnf = MyCnfFile::from_lines(&lines_of(MY_CNF));

    let v = vec![1, 2, 3];
    if let Some(v1) = v.last() {
        assert_eq!(v1, &3);
    }
    assert_eq!(v.len(), 3);
    assert_eq!(mycnf.pre_lines().len(), 3);
    assert_eq!(mycnf.blocks().len(), 1);

    let s_trimed = text::trim_str(" abc ");
    assert_eq!(s_trimed, "abc");

    let kv = mycnf.get_config("mysqld", "log-error1");
    assert!(kv.is_none());

    let kv = mycnf.get_config("mysqld", "log-error");
    let expect = ("log-error".to_owned(), "/var/log/mysqld.log".to_owned());
    assert_eq!(kv.unwrap(), expect);

    mycnf.set_block_key_value("mysqld", "a", "b");
    let kv = mycnf.get_config("mysqld", "a");
    let expect = ("a".to_owned(), "b".to_owned());
    assert_eq!(kv.unwrap(), expect);

    mycnf.remove_block_key_value("mysqld", "a");
    let kv = mycnf.get_config("mysqld", "a");
    assert_eq!(kv, None);

    let out = mycnf.to_lines();
    assert_eq!(out[3], "[mysqld]");
    assert_eq!(out.last().unwrap(), "#a=b");
}

#[test]
fn mysql_test_get_lines() {
    let mycnf = mysql::MyCnfFile::from_lines(&lines_of(MY_CNF));
    let v = vec![1, 2, 3];
    if let Some(v1) = v.last() {
        assert_eq!(v1, &3);
    }
    assert_eq!(v.len(), 3);
    assert_eq!(mycnf.pre_lines().len(), 3);
    assert_eq!(mycnf.blocks().len(), 1);
    assert_eq!(text::trim_str(" abc "), "abc");
    let kv = mycnf.get_config("mysqld", "log-error");
    let expect = ("log-error".to_owned(), "/var/log/mysqld.log".to_owned());
    assert_eq!(kv.unwrap(), expect);
}

#[test]
fn mycnf_test_trim() {
    let f = false;
    if !f {
        println!("{}", "yes");
    }
    let mut counter = 0;
    let result = for _i in 1..3 {};
    assert_eq!((), result);
    let result = 'abreadkablefor: for _i in 1..3 {
        break 'abreadkablefor;
    };
    assert_eq!((), result);
    let result = loop {
        counter += 1;
        if counter == 10 {
            break counter * 2;
        }
    };
    assert_eq!(result, 20);
    let s = "#  abc=55 ";
    let s_trimed = s.trim_start_matches('#').trim();
    let ss: Vec<&str> = s_trimed.splitn(2, '=').collect();
    assert_eq!(ss[0], "abc");
    assert_eq!(ss[1], "55");
    // the same through the library
    let lib_trimmed = text::trim_str(&text::strip_leading_char(s, '#'));
    assert_eq!(lib_trimmed, "abc=55");
    assert!(mycnf::assigns_key_commented_of(s, "abc"));
    assert_eq!(
        mycnf::config_pair_of(&lib_trimmed, "abc"),
        Some(("abc".to_string(), "55".to_string()))
    );

    let s = " [mysqld] ";
    assert!("][".contains(']'));
    assert!("][".contains('['));
    let v: Vec<_> = s.trim().match_indices(|c| "[]".contains(c)).collect();
    let s_trimed = s.trim();
    assert!(s_trimed.starts_with('['));
    let content = &(s_trimed[1..s_trimed.len() - 1]);
    assert_eq!(content, "mysqld");

    let x: &[_] = &['[', ']'];
    let ss = s_trimed.trim_matches(x);
    assert_eq!(ss, "mysqld");
    assert_eq!(v, [(0, "["), (7, "]")]);
    assert_eq!(mycnf::header_name_of(&text::trim_str(s)), Some("mysqld".to_string()));
}

#[test]
fn mysql_test_trim() {
    let s = "#  abc=55 ";
    let s_trimed = s.trim_start_matches('#').trim();
    let ss: Vec<&str> = s_trimed.splitn(2, '=').collect();
    assert_eq!(ss[0], "abc");
    assert_eq!(ss[1], "55");
    assert_eq!(text::trim_str(&text::strip_leading_char(s, '#')), "abc=55");

    let s = " [mysqld] ";
    assert!("][".contains(']'));
    assert!("][".contains('['));
    let v: Vec<_> = s.trim().match_indices(|c| "[]".contains(c)).collect();
    let s_trimed = s.trim();
    assert!(s_trimed.starts_with('['));
    let content = &(s_trimed[1..s_trimed.len() - 1]);
    assert_eq!(content, "mysqld");

    let x: &[_] = &['[', ']'];
    let ss = s_trimed.trim_matches(x);
    assert_eq!(ss, "mysqld");
    assert_eq!(v, [(0, "["), (7, "]")]);
    assert_eq!(mycnf::header_name_of(&text::trim_str(s)), Some("mysqld".to_string()));
}

#[test]
fn header_grammar_agrees_with_block_regex() {
    let re = regex::Regex::new(r"^\[(?P<blockname>[^\[\]]+)\]$").unwrap();
    let samples = [
        "[mysqld]", "[]", "[a]", "[[a]", "[a]]", "[a b]", "[ client ]", "mysqld]", "[mysqld",
        "[my[sq]ld]", "x[a]", "[a]x", "[é]", "[a=b]", "", "[", "]", "[#]",
    ];
    for s in samples.iter() {
        let expected = re.captures(s).map(|c| c["blockname"].to_string());
        assert_eq!(mycnf::header_name_of(s), expected, "header {:?}", s);
    }
}

#[test]
fn reading_splits_leading_lines_and_blocks() {
    let cnf = MyCnfFile::from_lines(&lines_of("  # top \n\n [client] \nport = 3306\n[mysqld]\n  a=1  \n"));
    assert_eq!(cnf.pre_lines(), &vec!["# top".to_string(), "".to_string()]);
    assert_eq!(cnf.blocks().len(), 2);
    assert_eq!(cnf.blocks()[0].name(), "client");
    assert_eq!(block_lines(&cnf, 0), vec!["port = 3306".to_string()]);
    assert_eq!(cnf.blocks()[1].name(), "mysqld");
    assert_eq!(block_lines(&cnf, 1), vec!["a=1".to_string()]);
}

#[test]
fn reading_drops_last_block_named_like_the_one_before() {
    let cnf = MyCnfFile::from_lines(&lines_of("[a]\nx=1\n[a]\ny=2\n"));
    assert_eq!(cnf.blocks().len(), 1);
    assert_eq!(block_lines(&cnf, 0), vec!["x=1".to_string()]);
    let cnf = MyCnfFile::from_lines(&lines_of("[a]\nx=1\n[b]\n[a]\ny=2\n"));
    assert_eq!(cnf.blocks().len(), 3);
}

#[test]
fn render_then_read_gives_the_same_file() {
    let text_in = "# lead\n[client]\nport=3306\n\n[mysqld]\ndatadir=/var/lib/mysql\n";
    let cnf = MyCnfFile::from_lines(&lines_of(text_in));
    let out = cnf.to_lines();
    assert_eq!(out, lines_of(text_in));
    let again = MyCnfFile::from_lines(&out);
    assert_eq!(again.to_lines(), out);
}

#[test]
fn lookup_skips_comments_and_trims() {
    let cnf = MyCnfFile::from_lines(&lines_of("[s]\n#k=commented\n k = first = x \nk=second\n"));
    assert_eq!(cnf.get_config("s", "k"), Some(("k".to_string(), "first = x".to_string())));
    assert_eq!(cnf.get_config("t", "k"), None);
    assert_eq!(cnf.get_config("s", "missing"), None);
}

#[test]
fn set_replaces_first_assignment_and_blanks_duplicates() {
    let mut cnf = MyCnfFile::from_lines(&lines_of("[s]\nk=1\nother=2\nk = 3\n"));
    cnf.set_block_key_value("s", "k", "9");
    assert_eq!(block_lines(&cnf, 0), vec!["k=9".to_string(), "other=2".to_string(), "".to_string()]);
    assert_eq!(cnf.get_config("s", "k"), Some(("k".to_string(), "9".to_string())));
}

#[test]
fn set_uncomments_a_commented_assignment() {
    let mut cnf = MyCnfFile::from_lines(&lines_of("[s]\n## k = 1\nx=2\n#k=4\n"));
    cnf.set_block_key_value("s", "k", "5");
    assert_eq!(block_lines(&cnf, 0), vec!["k=5".to_string(), "x=2".to_string(), "#k=4".to_string()]);
}

#[test]
fn set_appends_to_block_or_adds_a_block() {
    let mut cnf = MyCnfFile::from_lines(&lines_of("[s]\nx=2\n"));
    cnf.set_block_key_value("s", "k", "5");
    assert_eq!(block_lines(&cnf, 0), vec!["x=2".to_string(), "k=5".to_string()]);
    cnf.set_block_key_value("new", "a", "b");
    assert_eq!(cnf.blocks().len(), 2);
    assert_eq!(cnf.blocks()[1].name(), "new");
    assert_eq!(block_lines(&cnf, 1), vec!["a=b".to_string()]);
}

#[test]
fn remove_comments_out_every_assignment() {
    let mut cnf = MyCnfFile::from_lines(&lines_of("[s]\nk=1\nx=2\n k =3\n#k=4\n"));
    cnf.remove_block_key_value("s", "k");
    assert_eq!(
        block_lines(&cnf, 0),
        vec!["#k=1".to_string(), "x=2".to_string(), "#k =3".to_string(), "#k=4".to_string()]
    );
    assert_eq!(cnf.get_config("s", "k"), None);
    // a missing block leaves the file as it is
    cnf.remove_block_key_value("absent", "k");
    assert_eq!(cnf.blocks().len(), 1);
}

#[test]
fn first_reader_only_adds_missing_blocks() {
    let mut cnf = mysql::MyCnfFile::from_lines(&lines_of("[s]\nk=1\n"));
    cnf.set_block_key_value("s", "k", "2");
    assert_eq!(cnf.get_config("s", "k"), Some(("k".to_string(), "1".to_string())));
    cnf.set_block_key_value("t", "k", "2");
    assert_eq!(cnf.blocks().len(), 2);
    assert_eq!(cnf.get_config("t", "k"), Some(("k".to_string(), "2".to_string())));
}

#[test]
fn lookup_after_set_gives_the_trimmed_value() {
    let mut cnf = MyCnfFile::from_lines(&lines_of("[s]\nx=2\n"));
    cnf.set_block_key_value("s", "a", " b ");
    assert_eq!(cnf.get_config("s", "a"), Some(("a".to_string(), "b".to_string())));
    cnf.set_block_key_value("t", "a", "\tc d  ");
    assert_eq!(cnf.get_config("t", "a"), Some(("a".to_string(), "c d".to_string())));
}

#[test]
fn setting_twice_is_setting_once_to_the_second_value() {
    let files = [
        "[s]\nk=1\nother=2\nk = 3\n",
        "[s]\n## k = 1\nx=2\n#k=4\n",
        "[s]\nx=2\n",
        "[t]\nx=2\n",
    ];
    for text_in in files {
        let mut twice = MyCnfFile::from_lines(&lines_of(text_in));
        twice.set_block_key_value("s", "k", "first");
        twice.set_block_key_value("s", "k", "second");
        let mut once = MyCnfFile::from_lines(&lines_of(text_in));
        once.set_block_key_value("s", "k", "second");
        assert_eq!(twice.to_lines(), once.to_lines());
        let mut same = MyCnfFile::from_lines(&lines_of(text_in));
        same.set_block_key_value("s", "k", "second");
        same.set_block_key_value("s", "k", "second");
        assert_eq!(same.to_lines(), once.to_lines());
    }
}

#[test]
fn set_after_remove_revives_the_line_in_place() {
    let mut cnf = MyCnfFile::from_lines(&lines_of("[s]\nx=2\nk=1\ny=3\nk=4\n"));
    cnf.remove_block_key_value("s", "k");
    assert_eq!(
        block_lines(&cnf, 0),
        vec!["x=2".to_string(), "#k=1".to_string(), "y=3".to_string(), "#k=4".to_string()]
    );
    cnf.set_block_key_value("s", "k", "7");
    assert_eq!(
        block_lines(&cnf, 0),
        vec!["x=2".to_string(), "k=7".to_string(), "y=3".to_string(), "#k=4".to_string()]
    );
    assert_eq!(cnf.blocks().len(), 1);
    assert_eq!(cnf.get_config("s", "k"), Some(("k".to_string(), "7".to_string())));
}

#[test]
fn removing_twice_changes_nothing_more() {
    let mut cnf = MyCnfFile::from_lines(&lines_of("[s]\nk=1\nx=2\n k =3\n#k=4\n"));
    cnf.remove_block_key_value("s", "k");
    let once = cnf.to_lines();
    cnf.remove_block_key_value("s", "k");
    assert_eq!(cnf.to_lines(), once);
}
