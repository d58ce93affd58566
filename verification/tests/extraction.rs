use sift::extract::extract_symbols;
use sift::lang::python::looks_constant;
use sift::language::Language;
use sift::model::SymbolKind;

fn found(language: Language, source: &str) -> Vec<(String, SymbolKind)> {
    extract_symbols(language, source.as_bytes()).iter().map(|s| (s.name.clone(), s.kind)).collect()
}

#[test]
fn extracts_rust_symbols() {
    let source = r#"
mod inner {
    pub fn helper() {}
}

pub struct User { pub id: u32 }

impl User {
    pub fn new() -> Self { Self { id: 0 } }
}

pub enum Color { Red }

pub trait Visitor {
    fn visit(&mut self);
}

pub const MAX: u32 = 10;

pub static NAME: &str = "x";
"#;
    assert_eq!(
        found(Language::Rust, source),
        vec![
            ("inner".to_string(), SymbolKind::Module),
            ("helper".to_string(), SymbolKind::Function),
            ("User".to_string(), SymbolKind::Struct),
            ("new".to_string(), SymbolKind::Method),
            ("Color".to_string(), SymbolKind::Enum),
            ("Visitor".to_string(), SymbolKind::Trait),
            ("visit".to_string(), SymbolKind::Method),
            ("MAX".to_string(), SymbolKind::Constant),
            ("NAME".to_string(), SymbolKind::Constant),
        ]
    );
}

#[test]
fn reports_one_based_line_numbers() {
    let source = "fn alpha() {\n}\n\nfn beta() {\n}\n";
    let symbols = extract_symbols(Language::Rust, source.as_bytes());
    let lines: Vec<usize> = symbols.iter().map(|s| s.line).collect();
    assert_eq!(lines, vec![1, 4]);
}

#[test]
fn extracts_c_symbols() {
    let source = r#"#include <stdlib.h>

struct Point {
    int x;
};

enum Color { RED };

int area(struct Point p) {
    return p.x;
}

#define MAX_POINTS 128

const int limit = 5;
"#;
    assert_eq!(
        found(Language::C, source),
        vec![
            ("Point".to_string(), SymbolKind::Struct),
            ("Color".to_string(), SymbolKind::Enum),
            ("area".to_string(), SymbolKind::Function),
            ("MAX_POINTS".to_string(), SymbolKind::Constant),
            ("limit".to_string(), SymbolKind::Constant),
        ]
    );
}

#[test]
fn extracts_cpp_symbols() {
    let source = r#"namespace geo {

class Shape {
public:
    virtual double area() const { return 0.0; }
};

double total(const Shape& s);

}

class Widget {
    void draw();
};

void free_fn();

struct Plain {
    int size;
};
"#;
    assert_eq!(
        found(Language::Cpp, source),
        vec![
            ("geo".to_string(), SymbolKind::Module),
            ("Shape".to_string(), SymbolKind::Class),
            ("area".to_string(), SymbolKind::Method),
            ("total".to_string(), SymbolKind::Function),
            ("Widget".to_string(), SymbolKind::Class),
            ("draw".to_string(), SymbolKind::Method),
            ("free_fn".to_string(), SymbolKind::Function),
            ("Plain".to_string(), SymbolKind::Struct),
        ]
    );
}

#[test]
fn destructor_names_lose_the_tilde() {
    let source = "class Gate {\npublic:\n    ~Gate() {}\n};\n";
    let symbols = extract_symbols(Language::Cpp, source.as_bytes());
    assert!(symbols.iter().any(|s| s.name == "Gate" && s.kind == SymbolKind::Method));
}

#[test]
fn extracts_go_symbols() {
    let source = r#"package main

func main() {}

func helper(n int) int {
	return n
}

type Server struct{}

type Handler interface{ Handle() }

const A, B = 1, 2

var counter int
"#;
    assert_eq!(
        found(Language::Go, source),
        vec![
            ("main".to_string(), SymbolKind::Module),
            ("main".to_string(), SymbolKind::Function),
            ("helper".to_string(), SymbolKind::Function),
            ("Server".to_string(), SymbolKind::Struct),
            ("Handler".to_string(), SymbolKind::Interface),
            ("A".to_string(), SymbolKind::Constant),
            ("B".to_string(), SymbolKind::Constant),
            ("counter".to_string(), SymbolKind::Variable),
        ]
    );
}

#[test]
fn extracts_python_symbols() {
    let source = r#"class Client:
    def connect(self):
        pass


def load(path):
    def inner():
        pass
    inner()


LIMIT = 10
name = "x"
"#;
    assert_eq!(
        found(Language::Python, source),
        vec![
            ("Client".to_string(), SymbolKind::Class),
            ("connect".to_string(), SymbolKind::Method),
            ("load".to_string(), SymbolKind::Function),
            ("inner".to_string(), SymbolKind::Function),
            ("LIMIT".to_string(), SymbolKind::Constant),
            ("name".to_string(), SymbolKind::Variable),
        ]
    );
}

#[test]
fn extracts_javascript_symbols() {
    let source = r#"export function fmt(v) {
  return v;
}

async function go() {}

const LIMIT = 10;

let counter = 0;

class Cache {
  get(k) { return k; }
}
"#;
    assert_eq!(
        found(Language::JavaScript, source),
        vec![
            ("fmt".to_string(), SymbolKind::Function),
            ("go".to_string(), SymbolKind::Function),
            ("LIMIT".to_string(), SymbolKind::Constant),
            ("counter".to_string(), SymbolKind::Variable),
            ("Cache".to_string(), SymbolKind::Class),
            ("get".to_string(), SymbolKind::Method),
        ]
    );
}

#[test]
fn extracts_typescript_symbols() {
    let source = r#"interface Options {
    retries: number;
}

enum Mode { Fast, Slow }

export function retry<T>(op: () => T): T {
    return op();
}

class RetryClient implements Options {
    retries = 3;

    fetch(): void {}
}

type Alias = string;
"#;
    assert_eq!(
        found(Language::TypeScript, source),
        vec![
            ("Options".to_string(), SymbolKind::Interface),
            ("Mode".to_string(), SymbolKind::Enum),
            ("retry".to_string(), SymbolKind::Function),
            ("RetryClient".to_string(), SymbolKind::Class),
            ("fetch".to_string(), SymbolKind::Method),
        ]
    );
}

#[test]
fn looks_constant_follows_case_convention() {
    assert!(looks_constant("LIMIT"));
    assert!(looks_constant("MAX_2"));
    assert!(!looks_constant("name"));
    assert!(!looks_constant("Mixed"));
    assert!(!looks_constant("_1"));
}

#[test]
fn quoted_method_names_are_unquoted() {
    let source = "class A {\n  'quoted'() {}\n  \"other\"() {}\n}\n";
    let names = found(Language::JavaScript, source);
    assert!(names.contains(&("quoted".to_string(), SymbolKind::Method)));
    assert!(names.contains(&("other".to_string(), SymbolKind::Method)));
}
