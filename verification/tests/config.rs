use lex::Config;

#[test]
fn config_takes_the_second_argument_as_filename() {
    let args = vec![String::from("lex"), String::from("program.pl0")];
    match Config::new(args) {
        Ok(c) => assert_eq!(c.filename, "program.pl0"),
        Err(_) => panic!("two arguments are enough"),
    }
}

#[test]
fn config_rejects_missing_filename() {
    match Config::new(vec![String::from("lex")]) {
        Ok(_) => panic!("one argument is not enough"),
        Err(e) => assert_eq!(e, "not enough arguments"),
    }
    match Config::new(Vec::new()) {
        Ok(_) => panic!("no arguments is not enough"),
        Err(e) => assert_eq!(e, "not enough arguments"),
    }
}

#[test]
fn config_ignores_extra_arguments() {
    let args = vec![
        String::from("lex"),
        String::from("a.pl0"),
        String::from("b.pl0"),
    ];
    match Config::new(args) {
        Ok(c) => assert_eq!(c.filename, "a.pl0"),
        Err(_) => panic!("three arguments are enough"),
    }
}
