use zerosh::parser::{parse_cmd, Cmd};

fn shown(line: &str) -> Vec<(String, Vec<String>)> {
    match parse_cmd(line) {
        Ok(cmds) => cmds
            .iter()
            .map(|c: &Cmd<'_>| {
                (c.name.to_string(), c.args.iter().map(|a| a.to_string()).collect())
            })
            .collect(),
        Err(_) => panic!("a line is always taken apart"),
    }
}

fn command(name: &str, args: &[&str]) -> (String, Vec<String>) {
    (name.to_string(), args.iter().map(|a| a.to_string()).collect())
}

#[test]
fn one_command_with_its_arguments() {
    assert_eq!(shown("ls -l  /tmp"), vec![command("ls", &["-l", "/tmp"])]);
}

#[test]
fn commands_of_a_pipeline_keep_their_order() {
    assert_eq!(
        shown(" cat a.txt | sort -r|head "),
        vec![command("cat", &["a.txt"]), command("sort", &["-r"]), command("head", &[])]
    );
}

#[test]
fn parts_without_a_word_are_kept_without_a_name() {
    assert_eq!(shown(""), vec![command("", &[])]);
    assert_eq!(
        shown("| ls |"),
        vec![command("", &[]), command("ls", &[]), command("", &[])]
    );
}

#[test]
fn there_is_one_command_more_than_pipe_characters() {
    for line in ["", "a", "a|b", "||", "a | b | c"] {
        assert_eq!(shown(line).len(), 1 + line.matches('|').count());
    }
}
