use norma::compiler::compile;
use norma::compiler::error::{Diagnostics, Error, ErrorCause};
use norma::compiler::lexer::error::InvalidChar;
use norma::compiler::position::{Position, Span};

fn errors_of(source: &str) -> Vec<String> {
    match compile(source) {
        Ok(_) => Vec::new(),
        Err(diagnostics) => {
            let mut errors = diagnostics.iter();
            let mut result = Vec::new();
            while let Some(error) = errors.next() {
                result.push(error.text());
            }
            result
        }
    }
}

#[test]
fn error_main_declared_twice() {
    assert_eq!(
        errors_of("main { 1: do inc Y goto 0 }\nmain { }"),
        &["Main já foi declarada neste programa, da linha 2 e coluna 1, até a coluna 4"]
    );
}

#[test]
fn error_macro_declared_twice() {
    assert_eq!(
        errors_of("operation f (A) { 1: do inc A goto 0 }\noperation f (B) { 1: do dec B goto 0 }\nmain { 1: do f (X) goto 0 }"),
        &["Macro \"f\" já foi declarada neste programa, na linha 2 e coluna 11"]
    );
}

#[test]
fn error_label_declared_twice() {
    assert_eq!(
        errors_of("main {\n 1: do inc Y goto 2\n 1: do inc Y goto 0\n}"),
        &["Macro \"1\" já foi declarada neste programa, na linha 3 e coluna 2"]
    );
}

#[test]
fn error_end_of_input() {
    assert_eq!(errors_of("main { 1: do inc"), &["Fim inesperado do código"]);
}

#[test]
fn error_undefined_macro() {
    assert_eq!(
        errors_of("main { 1: do nothing (X) goto 0 }"),
        &["Macro \"nothing\" não existe, da linha 1 e coluna 14, até a coluna 20"]
    );
}

#[test]
fn error_incompatible_macro_type() {
    assert_eq!(
        errors_of("test t (A) { 1: if zero A then goto true else goto false }\nmain { 1: do t (X) goto 0 }"),
        &["Esperada macro do tipo Operation, mas macro \"t\" é do tipo Test, na linha 2 e coluna 14"]
    );
}

#[test]
fn error_mismatched_args_number() {
    assert_eq!(
        errors_of("operation f (A, B) { 1: do inc A goto 0 }\nmain { 1: do f (X) goto 0 }"),
        &["Macro \"f\" requer que sejam passados 2 argumentos, mas foram fornecidos 1, na linha 2 e coluna 14"]
    );
}

#[test]
fn error_mismatched_arg_type() {
    assert_eq!(
        errors_of("operation f (A) { 1: do inc A goto 0 }\nmain { 1: do f (7) goto 0 }"),
        &["Macro \"f\" requer que argumento do índice 0 (a partir do 0) seja do tipo registrador, mas foram tipo número foi encontrado, na linha 2 e coluna 14"]
    );
}

#[test]
fn error_invalid_labels() {
    assert_eq!(
        errors_of("main { 1: do inc X goto true }"),
        &["Rótulo \"true\" é inválido para main, da linha 1 e coluna 25, até a coluna 28"]
    );
    assert_eq!(
        errors_of("operation f (A) { 1: do inc A goto false }\nmain { 1: do f (X) goto 0 }"),
        &["Rótulo \"false\" é inválido para macro de operação, da linha 1 e coluna 36, até a coluna 40"]
    );
    assert_eq!(
        errors_of("test t (A) { 1: if zero A then goto true else goto 9 }\nmain { 1: if t (X) then goto 0 else goto 0 }"),
        &["Rótulo \"9\" é inválido para macro de teste, na linha 1 e coluna 52"]
    );
}

#[test]
fn error_invalid_char_escaped() {
    assert_eq!(
        errors_of("main'"),
        &[
            "Caracter '\\'' é inválido, na linha 1 e coluna 5",
            "Fim inesperado do código",
        ]
    );
}

#[test]
fn error_unicode_identifier_is_fine() {
    assert_eq!(errors_of("main { 1: do inc Ação goto 0 }"), Vec::<String>::new());
}

#[test]
fn diagnostics_basics() {
    let mut diagnostics = Diagnostics::new();
    assert!(diagnostics.is_ok());
    assert!(!diagnostics.is_err());
    assert_eq!(diagnostics.count_errors(), 0);
    let span = Span { start: Position::default(), end: Position { column: 2, utf8_index: 1, utf16_index: 1, line: 1 } };
    let error = Error::new(ErrorCause::InvalidChar(InvalidChar { character: '$' }), span);
    assert_eq!(error.span(), Some(span));
    diagnostics.raise(error.clone());
    diagnostics.raise(Error::with_no_span(ErrorCause::InvalidChar(InvalidChar { character: '#' })));
    assert!(diagnostics.is_err());
    assert_eq!(diagnostics.count_errors(), 2);
    let mut owned = diagnostics.into_iter();
    assert_eq!(owned.next().map(|e| e.text()), Some("Caracter '$' é inválido, na linha 1 e coluna 1".to_string()));
    assert_eq!(owned.next().map(|e| e.text()), Some("Caracter '#' é inválido".to_string()));
    assert!(owned.next().is_none());
}

#[test]
fn span_texts() {
    let start = Position { utf8_index: 0, utf16_index: 0, line: 2, column: 3 };
    let mut span = Span::from_start(start);
    span.update('a');
    assert_eq!(span.text(), "na linha 2 e coluna 3");
    span.update('b');
    assert_eq!(span.text(), "da linha 2 e coluna 3, até a coluna 4");
    span.update('\n');
    span.update('c');
    assert_eq!(span.text(), "da linha 2 e coluna 3, até a linha 3 e coluna 1");
    span.finish();
    assert_eq!(span.start, span.end);
    assert_eq!(span.start.text(), "linha 3 e coluna 2");
}

#[test]
fn position_counts_utf8_and_utf16() {
    let mut position = Position::default();
    position.update('a');
    position.update('é');
    position.update('€');
    position.update('😀');
    assert_eq!(position, Position { utf8_index: 10, utf16_index: 5, line: 1, column: 5 });
    position.update('\n');
    assert_eq!(position, Position { utf8_index: 11, utf16_index: 6, line: 2, column: 1 });
}

#[test]
fn run_end_to_end() {
    let output = norma::run("main { 1: do inc Y goto 2\n 2: do inc Y goto 0 }", norma::natural::Natural::from_u64(0));
    assert_eq!(output.map(|n| n.to_decimal()).unwrap(), "2");
    assert!(norma::run("main {", norma::natural::Natural::from_u64(0)).is_err());
}

#[test]
fn errors_of_every_body_are_raised_once() {
    let sources = [
        "operation g (A) { 1: do inc A goto true }\noperation f (A) { 1: do g (A) goto 2\n 2: do h (A) goto 0 }\nmain { 1: do f (X) goto 2\n 2: do inc X goto false }",
        "operation f (A) { 1: do g (A) goto 2\n 2: do h (A) goto 0 }\noperation g (A) { 1: do inc A goto true }\nmain { 1: do f (X) goto 2\n 2: do inc X goto false }",
    ];
    for source in sources {
        let errors = errors_of(source);
        assert_eq!(errors.len(), 3);
        let starts = [
            "Rótulo \"true\" é inválido para macro de operação",
            "Macro \"h\" não existe",
            "Rótulo \"false\" é inválido para main",
        ];
        for start in starts {
            assert_eq!(errors.iter().filter(|error| error.starts_with(start)).count(), 1);
        }
    }
}

#[test]
fn recursion_is_reported() {
    let errors = errors_of("operation f (A) { 1: do f (A) goto 0 }\nmain { 1: do f (X) goto 0 }");
    assert!(errors.iter().any(|error| error.starts_with("Recursão detectada entre as macros")));
}

fn invalid(character: char) -> Error {
    Error::with_no_span(ErrorCause::InvalidChar(InvalidChar { character }))
}

#[test]
fn iterators_go_both_ways() {
    let mut diagnostics = Diagnostics::new();
    for (k, character) in ['a', 'b', 'c'].into_iter().enumerate() {
        assert_eq!(diagnostics.count_errors(), k);
        assert_eq!(diagnostics.is_err(), k > 0);
        diagnostics.raise(invalid(character));
    }
    assert!(diagnostics.is_err());
    assert_eq!(diagnostics.count_errors(), 3);
    let mut errors = diagnostics.iter();
    assert_eq!(errors.len(), 3);
    assert_eq!(errors.next_back(), Some(&invalid('c')));
    assert_eq!(errors.next(), Some(&invalid('a')));
    assert_eq!(errors.len(), 1);
    assert_eq!(errors.next_back(), Some(&invalid('b')));
    assert_eq!(errors.len(), 0);
    assert!(errors.next().is_none());
    assert!(errors.next_back().is_none());
    let mut owned = diagnostics.into_iter();
    assert_eq!(owned.len(), 3);
    assert_eq!(owned.next_back(), Some(invalid('c')));
    assert_eq!(owned.next(), Some(invalid('a')));
    assert_eq!(owned.len(), 1);
}
