//! End-to-end tests: source text is parsed by the small parser below,
//! compiled, and either the emitted bytecode or the machine's final
//! result is checked.

use monkey_bytecode::ast::{BlockStatement, Expression, Program, Statement};
use monkey_bytecode::code::{
    lookup, make, make_with_operands, read_operands, ConcatInstructions, Instructions, Opcode,
};
use monkey_bytecode::compiler::{new_constants, Compiler};
use monkey_bytecode::object::{HashKey, Object};
use monkey_bytecode::symbol_table::{
    new_symbol_table_stack, Symbol, SymbolScope,
};
use monkey_bytecode::vm::{new_globals_store, VM};

// ---------------------------------------------------------------------
// A minimal lexer and Pratt parser for the source language, used only to
// build test inputs. The parser proper is an external collaborator of
// the library; the compiler starts from the AST.
// ---------------------------------------------------------------------

#[derive(Clone, Debug, PartialEq)]
enum Tok {
    Int(i64),
    Ident(String),
    Str(String),
    True,
    False,
    Let,
    Return,
    Function,
    If,
    Else,
    Plus,
    Minus,
    Star,
    Slash,
    Bang,
    Lt,
    Gt,
    Eq,
    NotEq,
    Assign,
    Lparen,
    Rparen,
    Lbrace,
    Rbrace,
    Lbracket,
    Rbracket,
    Comma,
    Colon,
    Semicolon,
    Eof,
}

fn lex(input: &str) -> Vec<Tok> {
    let chars: Vec<char> = input.chars().collect();
    let mut toks = Vec::new();
    let mut i = 0;
    while i < chars.len() {
        let c = chars[i];
        match c {
            ' ' | '\t' | '\n' | '\r' => {
                i += 1;
            }
            '+' => {
                toks.push(Tok::Plus);
                i += 1;
            }
            '-' => {
                toks.push(Tok::Minus);
                i += 1;
            }
            '*' => {
                toks.push(Tok::Star);
                i += 1;
            }
            '/' => {
                toks.push(Tok::Slash);
                i += 1;
            }
            '<' => {
                toks.push(Tok::Lt);
                i += 1;
            }
            '>' => {
                toks.push(Tok::Gt);
                i += 1;
            }
            '(' => {
                toks.push(Tok::Lparen);
                i += 1;
            }
            ')' => {
                toks.push(Tok::Rparen);
                i += 1;
            }
            '{' => {
                toks.push(Tok::Lbrace);
                i += 1;
            }
            '}' => {
                toks.push(Tok::Rbrace);
                i += 1;
            }
            '[' => {
                toks.push(Tok::Lbracket);
                i += 1;
            }
            ']' => {
                toks.push(Tok::Rbracket);
                i += 1;
            }
            ',' => {
                toks.push(Tok::Comma);
                i += 1;
            }
            ':' => {
                toks.push(Tok::Colon);
                i += 1;
            }
            ';' => {
                toks.push(Tok::Semicolon);
                i += 1;
            }
            '=' => {
                if i + 1 < chars.len() && chars[i + 1] == '=' {
                    toks.push(Tok::Eq);
                    i += 2;
                } else {
                    toks.push(Tok::Assign);
                    i += 1;
                }
            }
            '!' => {
                if i + 1 < chars.len() && chars[i + 1] == '=' {
                    toks.push(Tok::NotEq);
                    i += 2;
                } else {
                    toks.push(Tok::Bang);
                    i += 1;
                }
            }
            '"' => {
                let mut s = String::new();
                i += 1;
                while i < chars.len() && chars[i] != '"' {
                    s.push(chars[i]);
                    i += 1;
                }
                i += 1;
                toks.push(Tok::Str(s));
            }
            _ if c.is_ascii_digit() => {
                let mut n: i64 = 0;
                while i < chars.len() && chars[i].is_ascii_digit() {
                    n = n * 10 + (chars[i] as i64 - '0' as i64);
                    i += 1;
                }
                toks.push(Tok::Int(n));
            }
            _ if c.is_ascii_alphabetic() || c == '_' => {
                let mut s = String::new();
                while i < chars.len() && (chars[i].is_ascii_alphanumeric() || chars[i] == '_') {
                    s.push(chars[i]);
                    i += 1;
                }
                toks.push(match s.as_str() {
                    "let" => Tok::Let,
                    "return" => Tok::Return,
                    "fn" => Tok::Function,
                    "if" => Tok::If,
                    "else" => Tok::Else,
                    "true" => Tok::True,
                    "false" => Tok::False,
                    _ => Tok::Ident(s),
                });
            }
            _ => panic!("unexpected character {:?}", c),
        }
    }
    toks.push(Tok::Eof);
    toks
}

const LOWEST: u8 = 0;
const EQUALS: u8 = 1;
const LESSGREATER: u8 = 2;
const SUM: u8 = 3;
const PRODUCT: u8 = 4;
const PREFIX: u8 = 5;
const CALL: u8 = 6;
const INDEX: u8 = 7;

struct Parser {
    toks: Vec<Tok>,
    pos: usize,
}

impl Parser {
    fn cur(&self) -> &Tok {
        &self.toks[self.pos]
    }

    fn bump(&mut self) -> Tok {
        let t = self.toks[self.pos].clone();
        self.pos += 1;
        t
    }

    fn expect(&mut self, t: Tok) {
        let got = self.bump();
        assert_eq!(got, t, "parser expected {:?}", t);
    }

    fn prec_of(&self) -> u8 {
        match self.cur() {
            Tok::Eq | Tok::NotEq => EQUALS,
            Tok::Lt | Tok::Gt => LESSGREATER,
            Tok::Plus | Tok::Minus => SUM,
            Tok::Star | Tok::Slash => PRODUCT,
            Tok::Lparen => CALL,
            Tok::Lbracket => INDEX,
            _ => LOWEST,
        }
    }

    fn parse_program(&mut self) -> Program {
        let mut statements = Vec::new();
        while *self.cur() != Tok::Eof {
            statements.push(self.parse_statement());
        }
        Program { statements }
    }

    fn parse_statement(&mut self) -> Statement {
        match self.cur() {
            Tok::Let => {
                self.bump();
                let name = match self.bump() {
                    Tok::Ident(s) => s,
                    other => panic!("expected identifier, got {:?}", other),
                };
                self.expect(Tok::Assign);
                let value = self.parse_expression(LOWEST);
                if *self.cur() == Tok::Semicolon {
                    self.bump();
                }
                Statement::LetStatement { name, value }
            }
            Tok::Return => {
                self.bump();
                let return_value = self.parse_expression(LOWEST);
                if *self.cur() == Tok::Semicolon {
                    self.bump();
                }
                Statement::ReturnStatement { return_value }
            }
            _ => {
                let expression = self.parse_expression(LOWEST);
                if *self.cur() == Tok::Semicolon {
                    self.bump();
                }
                Statement::ExpressionStatement { expression }
            }
        }
    }

    fn parse_block(&mut self) -> BlockStatement {
        self.expect(Tok::Lbrace);
        let mut statements = Vec::new();
        while *self.cur() != Tok::Rbrace && *self.cur() != Tok::Eof {
            statements.push(self.parse_statement());
        }
        self.expect(Tok::Rbrace);
        BlockStatement { statements }
    }

    fn parse_expression(&mut self, prec: u8) -> Expression {
        let mut left = match self.bump() {
            Tok::Int(value) => Expression::IntegerLiteral { value },
            Tok::Str(s) => Expression::StringLiteral { value: s },
            Tok::Ident(s) => Expression::Identifier { value: s },
            Tok::True => Expression::BooleanLiteral { value: true },
            Tok::False => Expression::BooleanLiteral { value: false },
            Tok::Bang => Expression::PrefixExpression {
                operator: String::from("!"),
                right: Box::new(self.parse_expression(PREFIX)),
            },
            Tok::Minus => Expression::PrefixExpression {
                operator: String::from("-"),
                right: Box::new(self.parse_expression(PREFIX)),
            },
            Tok::Lparen => {
                let e = self.parse_expression(LOWEST);
                self.expect(Tok::Rparen);
                e
            }
            Tok::If => {
                self.expect(Tok::Lparen);
                let condition = Box::new(self.parse_expression(LOWEST));
                self.expect(Tok::Rparen);
                let consequence = self.parse_block();
                let alternative = if *self.cur() == Tok::Else {
                    self.bump();
                    Some(self.parse_block())
                } else {
                    None
                };
                Expression::IfExpression { condition, consequence, alternative }
            }
            Tok::Function => {
                self.expect(Tok::Lparen);
                let mut parameters = Vec::new();
                while *self.cur() != Tok::Rparen {
                    match self.bump() {
                        Tok::Ident(s) => parameters.push(s),
                        other => panic!("expected parameter, got {:?}", other),
                    }
                    if *self.cur() == Tok::Comma {
                        self.bump();
                    }
                }
                self.expect(Tok::Rparen);
                let body = self.parse_block();
                Expression::FunctionLiteral { parameters, body }
            }
            Tok::Lbracket => {
                let mut elements = Vec::new();
                while *self.cur() != Tok::Rbracket {
                    elements.push(self.parse_expression(LOWEST));
                    if *self.cur() == Tok::Comma {
                        self.bump();
                    }
                }
                self.expect(Tok::Rbracket);
                Expression::ArrayLiteral { elements }
            }
            Tok::Lbrace => {
                let mut pairs = Vec::new();
                while *self.cur() != Tok::Rbrace {
                    let key = self.parse_expression(LOWEST);
                    self.expect(Tok::Colon);
                    let value = self.parse_expression(LOWEST);
                    pairs.push((key, value));
                    if *self.cur() == Tok::Comma {
                        self.bump();
                    }
                }
                self.expect(Tok::Rbrace);
                Expression::HashLiteral { pairs }
            }
            other => panic!("no prefix parse for {:?}", other),
        };
        while prec < self.prec_of() {
            left = match self.bump() {
                Tok::Plus => self.infix(left, "+"),
                Tok::Minus => self.infix(left, "-"),
                Tok::Star => self.infix(left, "*"),
                Tok::Slash => self.infix(left, "/"),
                Tok::Lt => self.infix(left, "<"),
                Tok::Gt => self.infix(left, ">"),
                Tok::Eq => self.infix(left, "=="),
                Tok::NotEq => self.infix(left, "!="),
                Tok::Lparen => {
                    let mut arguments = Vec::new();
                    while *self.cur() != Tok::Rparen {
                        arguments.push(self.parse_expression(LOWEST));
                        if *self.cur() == Tok::Comma {
                            self.bump();
                        }
                    }
                    self.expect(Tok::Rparen);
                    Expression::CallExpression { function: Box::new(left), arguments }
                }
                Tok::Lbracket => {
                    let index = Box::new(self.parse_expression(LOWEST));
                    self.expect(Tok::Rbracket);
                    Expression::IndexExpression { left: Box::new(left), index }
                }
                other => panic!("no infix parse for {:?}", other),
            };
        }
        left
    }

    fn infix(&mut self, left: Expression, operator: &str) -> Expression {
        let prec = match operator {
            "==" | "!=" => EQUALS,
            "<" | ">" => LESSGREATER,
            "+" | "-" => SUM,
            _ => PRODUCT,
        };
        let right = Box::new(self.parse_expression(prec));
        Expression::InfixExpression {
            operator: String::from(operator),
            left: Box::new(left),
            right,
        }
    }
}

fn parse(input: &str) -> Program {
    Parser { toks: lex(input), pos: 0 }.parse_program()
}

// ---------------------------------------------------------------------
// Expected values and checking helpers.
// ---------------------------------------------------------------------

enum Expect {
    Integer(i64),
    Boolean(bool),
    Null,
    Str(&'static str),
    IntArray(Vec<i64>),
    IntHash(Vec<(i64, i64)>),
    Instructions(Vec<Instructions>),
}

fn check_object(expected: &Expect, actual: &Object) {
    match expected {
        Expect::Integer(v) => match actual {
            Object::Integer(i) => assert_eq!(v, i),
            other => panic!("object is not Integer: {:?}", other),
        },
        Expect::Boolean(v) => match actual {
            Object::Boolean(b) => assert_eq!(v, b),
            other => panic!("object is not Boolean: {:?}", other),
        },
        Expect::Null => match actual {
            Object::Null => {}
            other => panic!("object is not Null: {:?}", other),
        },
        Expect::Str(v) => match actual {
            Object::Str(s) => assert_eq!(*v, s.as_str()),
            other => panic!("object is not String: {:?}", other),
        },
        Expect::IntArray(vs) => match actual {
            Object::Array(arr) => {
                assert_eq!(vs.len(), arr.elements.len());
                for (v, e) in vs.iter().zip(arr.elements.iter()) {
                    check_object(&Expect::Integer(*v), e);
                }
            }
            other => panic!("object is not Array: {:?}", other),
        },
        Expect::IntHash(pairs) => match actual {
            Object::Hash(hash) => {
                assert_eq!(pairs.len(), hash.pairs.len());
                for (k, v) in pairs {
                    let key = HashKey::Int(*k);
                    let found = hash
                        .pairs
                        .iter()
                        .find(|entry| entry.0.equals(&key))
                        .expect("no pair for given key in pairs");
                    check_object(&Expect::Integer(*v), &found.1.value);
                }
            }
            other => panic!("object is not Hash: {:?}", other),
        },
        Expect::Instructions(ins) => match actual {
            Object::CompiledFunction(func) => {
                let concatted = ins_vec_to_owned(ins).concat();
                assert_eq!(concatted, func.instructions);
            }
            other => panic!("object is not CompiledFunction: {:?}", other),
        },
    }
}

fn ins_vec_to_owned(ins: &[Instructions]) -> Vec<Instructions> {
    ins.iter().map(|i| Instructions(i.0.clone())).collect()
}

fn run_compile_test(input: &str, expected_constants: Vec<Expect>, expected_ins: Vec<Instructions>) {
    let program = parse(input);
    let symbol_table_stack = new_symbol_table_stack();
    let constants = new_constants();
    let mut compiler = Compiler::new_with_state(symbol_table_stack, constants);
    if let Err(err) = compiler.compile(program) {
        panic!("compile error. {}", err);
    }
    let bytecode = compiler.bytecode();
    let concatted = expected_ins.concat();
    assert_eq!(concatted, bytecode.instructions);
    assert_eq!(expected_constants.len(), bytecode.constants.len());
    for (constant, object) in expected_constants.iter().zip(bytecode.constants.iter()) {
        check_object(constant, object);
    }
}

fn run_int_compile_tests(tests: Vec<(&str, Vec<i64>, Vec<Instructions>)>) {
    for (input, expected_constants, expected_ins) in tests {
        let constants = expected_constants.into_iter().map(Expect::Integer).collect();
        run_compile_test(input, constants, expected_ins);
    }
}

fn run_vm_tests(tests: Vec<(&str, Expect)>) {
    for (input, expected) in tests {
        let program = parse(input);
        let symbol_table_stack = new_symbol_table_stack();
        let constants = new_constants();
        let mut comp = Compiler::new_with_state(symbol_table_stack, constants);
        if let Err(err) = comp.compile(program) {
            panic!("compile error: {}", err);
        }
        let globals = new_globals_store();
        let mut vm = VM::new_with_globals_store(comp.bytecode(), globals);
        if let Err(err) = vm.run() {
            panic!("vm error: {}", err);
        }
        match vm.last_popped_stack_elem() {
            Some(stack_elem) => check_object(&expected, stack_elem),
            None => panic!("stack_elem is None."),
        }
    }
}

fn compile_failure(input: &str) -> String {
    let program = parse(input);
    let mut compiler = Compiler::new();
    match compiler.compile(program) {
        Ok(()) => panic!("expected a compile error for {:?}", input),
        Err(e) => e,
    }
}

fn vm_error(input: &str) -> String {
    let program = parse(input);
    let mut comp = Compiler::new();
    if let Err(err) = comp.compile(program) {
        panic!("compile error: {}", err);
    }
    let globals = new_globals_store();
    let mut vm = VM::new_with_globals_store(comp.bytecode(), globals);
    match vm.run() {
        Ok(()) => panic!("expected a runtime error for {:?}", input),
        Err(e) => e,
    }
}

// ---------------------------------------------------------------------
// Instruction encoding and disassembly.
// ---------------------------------------------------------------------

#[test]
fn test_make() {
    {
        let tests = vec![
            (Opcode::OpConstant, vec![65534], Instructions(vec![0u8, 255u8, 254u8])),
            (Opcode::OpGetLocal, vec![255], Instructions(vec![Opcode::OpGetLocal.byte(), 255])),
        ];
        for (op, operands, expected) in tests {
            let instruction = make_with_operands(op, &operands);
            assert_eq!(instruction, expected);
        }
    }
    {
        let tests = vec![(Opcode::OpAdd, Instructions(vec![1u8]))];
        for (op, expected) in tests {
            let instruction = make(op);
            assert_eq!(instruction, expected);
        }
    }
}

#[test]
fn test_instruction_string() {
    let instructions = vec![
        make(Opcode::OpAdd),
        make_with_operands(Opcode::OpGetLocal, &[1]),
        make_with_operands(Opcode::OpConstant, &[2]),
        make_with_operands(Opcode::OpConstant, &[65535]),
    ];
    let expected = "0000 OpAdd\n0001 OpGetLocal 1\n0003 OpConstant 2\n0006 OpConstant 65535\n";
    let concatted = instructions.concat();
    assert_eq!(expected, concatted.disassemble().as_str());
}

#[test]
fn test_read_operands() {
    let tests = vec![
        (Opcode::OpConstant, vec![65535usize], 2usize),
        (Opcode::OpGetLocal, vec![255usize], 1usize),
    ];
    for (op, operands, bytes_read) in tests {
        let def = lookup(&op);
        let instruction = make_with_operands(op, &operands);
        if let Some((_, ins)) = instruction.0.split_first() {
            let (operands_read, n) = read_operands(&def, ins);
            assert_eq!(bytes_read, n);
            assert_eq!(operands, operands_read);
        } else {
            unreachable!()
        }
    }
}

// ---------------------------------------------------------------------
// Compiler tests.
// ---------------------------------------------------------------------

#[test]
fn compiler_test_integer_arithmetic() {
    let tests = vec![
        (
            "1 + 2",
            vec![1, 2],
            vec![
                make_with_operands(Opcode::OpConstant, &vec![0]),
                make_with_operands(Opcode::OpConstant, &vec![1]),
                make(Opcode::OpAdd),
                make(Opcode::OpPop),
            ],
        ),
        (
            "1; 2",
            vec![1, 2],
            vec![
                make_with_operands(Opcode::OpConstant, &vec![0]),
                make(Opcode::OpPop),
                make_with_operands(Opcode::OpConstant, &vec![1]),
                make(Opcode::OpPop),
            ],
        ),
        (
            "1 - 2",
            vec![1, 2],
            vec![
                make_with_operands(Opcode::OpConstant, &vec![0]),
                make_with_operands(Opcode::OpConstant, &vec![1]),
                make(Opcode::OpSub),
                make(Opcode::OpPop),
            ],
        ),
        (
            "1 * 2",
            vec![1, 2],
            vec![
                make_with_operands(Opcode::OpConstant, &vec![0]),
                make_with_operands(Opcode::OpConstant, &vec![1]),
                make(Opcode::OpMul),
                make(Opcode::OpPop),
            ],
        ),
        (
            "2 / 1",
            vec![2, 1],
            vec![
                make_with_operands(Opcode::OpConstant, &vec![0]),
                make_with_operands(Opcode::OpConstant, &vec![1]),
                make(Opcode::OpDiv),
                make(Opcode::OpPop),
            ],
        ),
        (
            "-1",
            vec![1],
            vec![
                make_with_operands(Opcode::OpConstant, &vec![0]),
                make(Opcode::OpMinus),
                make(Opcode::OpPop),
            ],
        ),
    ];
    run_int_compile_tests(tests);
}

#[test]
fn mod_test_integer_arithmetic() {
    let tests = vec![
        (
            "1 + 2",
            vec![1, 2],
            vec![
                make_with_operands(Opcode::OpConstant, &vec![0]),
                make_with_operands(Opcode::OpConstant, &vec![1]),
                make(Opcode::OpAdd),
                make(Opcode::OpPop),
            ],
        ),
        (
            "1; 2",
            vec![1, 2],
            vec![
                make_with_operands(Opcode::OpConstant, &vec![0]),
                make(Opcode::OpPop),
                make_with_operands(Opcode::OpConstant, &vec![1]),
                make(Opcode::OpPop),
            ],
        ),
        (
            "1 - 2",
            vec![1, 2],
            vec![
                make_with_operands(Opcode::OpConstant, &vec![0]),
                make_with_operands(Opcode::OpConstant, &vec![1]),
                make(Opcode::OpSub),
                make(Opcode::OpPop),
            ],
        ),
        (
            "1 * 2",
            vec![1, 2],
            vec![
                make_with_operands(Opcode::OpConstant, &vec![0]),
                make_with_operands(Opcode::OpConstant, &vec![1]),
                make(Opcode::OpMul),
                make(Opcode::OpPop),
            ],
        ),
        (
            "2 / 1",
            vec![2, 1],
            vec![
                make_with_operands(Opcode::OpConstant, &vec![0]),
                make_with_operands(Opcode::OpConstant, &vec![1]),
                make(Opcode::OpDiv),
                make(Opcode::OpPop),
            ],
        ),
        (
            "-1",
            vec![1],
            vec![
                make_with_operands(Opcode::OpConstant, &vec![0]),
                make(Opcode::OpMinus),
                make(Opcode::OpPop),
            ],
        ),
    ];
    run_int_compile_tests(tests);
}

#[test]
fn compiler_test_boolean_expressions() {
    let tests = vec![
        ("true", vec![], vec![make(Opcode::OpTrue), make(Opcode::OpPop)]),
        ("false", vec![], vec![make(Opcode::OpFalse), make(Opcode::OpPop)]),
        (
            "1 > 2",
            vec![1, 2],
            vec![
                make_with_operands(Opcode::OpConstant, &vec![0]),
                make_with_operands(Opcode::OpConstant, &vec![1]),
                make(Opcode::OpGreaterThan),
                make(Opcode::OpPop),
            ],
        ),
        (
            "1 < 2",
            vec![2, 1],
            vec![
                make_with_operands(Opcode::OpConstant, &vec![0]),
                make_with_operands(Opcode::OpConstant, &vec![1]),
                make(Opcode::OpGreaterThan),
                make(Opcode::OpPop),
            ],
        ),
        (
            "1 == 2",
            vec![1, 2],
            vec![
                make_with_operands(Opcode::OpConstant, &vec![0]),
                make_with_operands(Opcode::OpConstant, &vec![1]),
                make(Opcode::OpEqual),
                make(Opcode::OpPop),
            ],
        ),
        (
            "1 != 2",
            vec![1, 2],
            vec![
                make_with_operands(Opcode::OpConstant, &vec![0]),
                make_with_operands(Opcode::OpConstant, &vec![1]),
                make(Opcode::OpNotEqual),
                make(Opcode::OpPop),
            ],
        ),
        (
            "true == false",
            vec![],
            vec![
                make(Opcode::OpTrue),
                make(Opcode::OpFalse),
                make(Opcode::OpEqual),
                make(Opcode::OpPop),
            ],
        ),
        (
            "true != false",
            vec![],
            vec![
                make(Opcode::OpTrue),
                make(Opcode::OpFalse),
                make(Opcode::OpNotEqual),
                make(Opcode::OpPop),
            ],
        ),
        (
            "!true",
            vec![],
            vec![make(Opcode::OpTrue), make(Opcode::OpBang), make(Opcode::OpPop)],
        ),
    ];
    run_int_compile_tests(tests);
}

#[test]
fn mod_test_boolean_expressions() {
    let tests = vec![
        ("true", vec![], vec![make(Opcode::OpTrue), make(Opcode::OpPop)]),
        ("false", vec![], vec![make(Opcode::OpFalse), make(Opcode::OpPop)]),
        (
            "1 > 2",
            vec![1, 2],
            vec![
                make_with_operands(Opcode::OpConstant, &vec![0]),
                make_with_operands(Opcode::OpConstant, &vec![1]),
                make(Opcode::OpGreaterThan),
                make(Opcode::OpPop),
            ],
        ),
        (
            "1 < 2",
            vec![2, 1],
            vec![
                make_with_operands(Opcode::OpConstant, &vec![0]),
                make_with_operands(Opcode::OpConstant, &vec![1]),
                make(Opcode::OpGreaterThan),
                make(Opcode::OpPop),
            ],
        ),
        (
            "1 == 2",
            vec![1, 2],
            vec![
                make_with_operands(Opcode::OpConstant, &vec![0]),
                make_with_operands(Opcode::OpConstant, &vec![1]),
                make(Opcode::OpEqual),
                make(Opcode::OpPop),
            ],
        ),
        (
            "1 != 2",
            vec![1, 2],
            vec![
                make_with_operands(Opcode::OpConstant, &vec![0]),
                make_with_operands(Opcode::OpConstant, &vec![1]),
                make(Opcode::OpNotEqual),
                make(Opcode::OpPop),
            ],
        ),
        (
            "true == false",
            vec![],
            vec![
                make(Opcode::OpTrue),
                make(Opcode::OpFalse),
                make(Opcode::OpEqual),
                make(Opcode::OpPop),
            ],
        ),
        (
            "true != false",
            vec![],
            vec![
                make(Opcode::OpTrue),
                make(Opcode::OpFalse),
                make(Opcode::OpNotEqual),
                make(Opcode::OpPop),
            ],
        ),
        (
            "!true",
            vec![],
            vec![make(Opcode::OpTrue), make(Opcode::OpBang), make(Opcode::OpPop)],
        ),
    ];
    run_int_compile_tests(tests);
}

#[test]
fn mod_test_conditionals() {
    let tests = vec![
        (
            "if (true) { 10 }; 3333;",
            vec![10, 3333],
            vec![
                make(Opcode::OpTrue),
                make_with_operands(Opcode::OpJumpNotTruthy, &[10]),
                make_with_operands(Opcode::OpConstant, &[0]),
                make_with_operands(Opcode::OpJump, &[11]),
                make(Opcode::OpNull),
                make(Opcode::OpPop),
                make_with_operands(Opcode::OpConstant, &[1]),
                make(Opcode::OpPop),
            ],
        ),
        (
            "if (true) { 10 } else { 20 }; 3333;",
            vec![10, 20, 3333],
            vec![
                make(Opcode::OpTrue),
                make_with_operands(Opcode::OpJumpNotTruthy, &[10]),
                make_with_operands(Opcode::OpConstant, &[0]),
                make_with_operands(Opcode::OpJump, &[13]),
                make_with_operands(Opcode::OpConstant, &[1]),
                make(Opcode::OpPop),
                make_with_operands(Opcode::OpConstant, &[2]),
                make(Opcode::OpPop),
            ],
        ),
    ];
    run_int_compile_tests(tests);
}

#[test]
fn mod_test_global_let_statements() {
    let tests = vec![
        (
            r"
                let one = 1;
                let two = 2;
                ",
            vec![1, 2],
            vec![
                make_with_operands(Opcode::OpConstant, &[0]),
                make_with_operands(Opcode::OpSetGlobal, &[0]),
                make_with_operands(Opcode::OpConstant, &[1]),
                make_with_operands(Opcode::OpSetGlobal, &[1]),
            ],
        ),
        (
            r"
                let one = 1;
                one;
                ",
            vec![1],
            vec![
                make_with_operands(Opcode::OpConstant, &[0]),
                make_with_operands(Opcode::OpSetGlobal, &[0]),
                make_with_operands(Opcode::OpGetGlobal, &[0]),
                make(Opcode::OpPop),
            ],
        ),
        (
            r"
                let one = 1;
                let two = one;
                two;
                ",
            vec![1],
            vec![
                make_with_operands(Opcode::OpConstant, &[0]),
                make_with_operands(Opcode::OpSetGlobal, &[0]),
                make_with_operands(Opcode::OpGetGlobal, &[0]),
                make_with_operands(Opcode::OpSetGlobal, &[1]),
                make_with_operands(Opcode::OpGetGlobal, &[1]),
                make(Opcode::OpPop),
            ],
        ),
    ];
    run_int_compile_tests(tests);
}

#[test]
fn mod_test_string_expressions() {
    let tests = vec![
        (
            r#""monkey""#,
            vec![Expect::Str("monkey")],
            vec![make_with_operands(Opcode::OpConstant, &[0]), make(Opcode::OpPop)],
        ),
        (
            r#""mon" + "key""#,
            vec![Expect::Str("mon"), Expect::Str("key")],
            vec![
                make_with_operands(Opcode::OpConstant, &[0]),
                make_with_operands(Opcode::OpConstant, &[1]),
                make(Opcode::OpAdd),
                make(Opcode::OpPop),
            ],
        ),
    ];
    for (input, constants, ins) in tests {
        run_compile_test(input, constants, ins);
    }
}

#[test]
fn mod_test_array_literals() {
    let tests = vec![
        ("[]", vec![], vec![make_with_operands(Opcode::OpArray, &[0]), make(Opcode::OpPop)]),
        (
            "[1, 2, 3]",
            vec![1, 2, 3],
            vec![
                make_with_operands(Opcode::OpConstant, &[0]),
                make_with_operands(Opcode::OpConstant, &[1]),
                make_with_operands(Opcode::OpConstant, &[2]),
                make_with_operands(Opcode::OpArray, &[3]),
                make(Opcode::OpPop),
            ],
        ),
        (
            "[1 + 2, 3 - 4, 5 * 6]",
            vec![1, 2, 3, 4, 5, 6],
            vec![
                make_with_operands(Opcode::OpConstant, &[0]),
                make_with_operands(Opcode::OpConstant, &[1]),
                make(Opcode::OpAdd),
                make_with_operands(Opcode::OpConstant, &[2]),
                make_with_operands(Opcode::OpConstant, &[3]),
                make(Opcode::OpSub),
                make_with_operands(Opcode::OpConstant, &[4]),
                make_with_operands(Opcode::OpConstant, &[5]),
                make(Opcode::OpMul),
                make_with_operands(Opcode::OpArray, &[3]),
                make(Opcode::OpPop),
            ],
        ),
    ];
    run_int_compile_tests(tests);
}

#[test]
fn mod_test_hash_literals() {
    let tests = vec![
        ("{}", vec![], vec![make_with_operands(Opcode::OpHash, &[0]), make(Opcode::OpPop)]),
        (
            "{1: 2, 3: 4, 5: 6}",
            vec![1, 2, 3, 4, 5, 6],
            vec![
                make_with_operands(Opcode::OpConstant, &[0]),
                make_with_operands(Opcode::OpConstant, &[1]),
                make_with_operands(Opcode::OpConstant, &[2]),
                make_with_operands(Opcode::OpConstant, &[3]),
                make_with_operands(Opcode::OpConstant, &[4]),
                make_with_operands(Opcode::OpConstant, &[5]),
                make_with_operands(Opcode::OpHash, &[6]),
                make(Opcode::OpPop),
            ],
        ),
        (
            "{1: 2 + 3, 4: 5 * 6}",
            vec![1, 2, 3, 4, 5, 6],
            vec![
                make_with_operands(Opcode::OpConstant, &[0]),
                make_with_operands(Opcode::OpConstant, &[1]),
                make_with_operands(Opcode::OpConstant, &[2]),
                make(Opcode::OpAdd),
                make_with_operands(Opcode::OpConstant, &[3]),
                make_with_operands(Opcode::OpConstant, &[4]),
                make_with_operands(Opcode::OpConstant, &[5]),
                make(Opcode::OpMul),
                make_with_operands(Opcode::OpHash, &[4]),
                make(Opcode::OpPop),
            ],
        ),
    ];
    run_int_compile_tests(tests);
}

#[test]
fn test_index_expresssions() {
    let tests = vec![
        (
            "[1, 2, 3][1 + 1]",
            vec![1, 2, 3, 1, 1],
            vec![
                make_with_operands(Opcode::OpConstant, &[0]),
                make_with_operands(Opcode::OpConstant, &[1]),
                make_with_operands(Opcode::OpConstant, &[2]),
                make_with_operands(Opcode::OpArray, &[3]),
                make_with_operands(Opcode::OpConstant, &[3]),
                make_with_operands(Opcode::OpConstant, &[4]),
                make(Opcode::OpAdd),
                make(Opcode::OpIndex),
                make(Opcode::OpPop),
            ],
        ),
        (
            "{1: 2}[2 - 1]",
            vec![1, 2, 2, 1],
            vec![
                make_with_operands(Opcode::OpConstant, &[0]),
                make_with_operands(Opcode::OpConstant, &[1]),
                make_with_operands(Opcode::OpHash, &[2]),
                make_with_operands(Opcode::OpConstant, &[2]),
                make_with_operands(Opcode::OpConstant, &[3]),
                make(Opcode::OpSub),
                make(Opcode::OpIndex),
                make(Opcode::OpPop),
            ],
        ),
    ];
    run_int_compile_tests(tests);
}

#[test]
fn test_functions() {
    let tests = vec![
        (
            "fn() { return 5 + 10 }",
            vec![
                Expect::Integer(5),
                Expect::Integer(10),
                Expect::Instructions(vec![
                    make_with_operands(Opcode::OpConstant, &[0]),
                    make_with_operands(Opcode::OpConstant, &[1]),
                    make(Opcode::OpAdd),
                    make(Opcode::OpReturnValue),
                ]),
            ],
            vec![make_with_operands(Opcode::OpConstant, &[2]), make(Opcode::OpPop)],
        ),
        (
            "fn() { 5 + 10 }",
            vec![
                Expect::Integer(5),
                Expect::Integer(10),
                Expect::Instructions(vec![
                    make_with_operands(Opcode::OpConstant, &[0]),
                    make_with_operands(Opcode::OpConstant, &[1]),
                    make(Opcode::OpAdd),
                    make(Opcode::OpReturnValue),
                ]),
            ],
            vec![make_with_operands(Opcode::OpConstant, &[2]), make(Opcode::OpPop)],
        ),
        (
            "fn() { 1; 2 }",
            vec![
                Expect::Integer(1),
                Expect::Integer(2),
                Expect::Instructions(vec![
                    make_with_operands(Opcode::OpConstant, &[0]),
                    make(Opcode::OpPop),
                    make_with_operands(Opcode::OpConstant, &[1]),
                    make(Opcode::OpReturnValue),
                ]),
            ],
            vec![make_with_operands(Opcode::OpConstant, &[2]), make(Opcode::OpPop)],
        ),
    ];
    for (input, constants, ins) in tests {
        run_compile_test(input, constants, ins);
    }
}

#[test]
fn mod_test_functions_without_return_value() {
    let tests = vec![(
        "fn() { }",
        vec![Expect::Instructions(vec![make(Opcode::OpReturn)])],
        vec![make_with_operands(Opcode::OpConstant, &[0]), make(Opcode::OpPop)],
    )];
    for (input, constants, ins) in tests {
        run_compile_test(input, constants, ins);
    }
}

#[test]
fn test_compiler_scopes() {
    let symbol_table_stack = new_symbol_table_stack();
    let constants = new_constants();
    let mut compiler = Compiler::new_with_state(symbol_table_stack, constants);
    assert_eq!(compiler.scope_index, 0);
    compiler.emit(Opcode::OpMul);

    compiler.enter_scope();
    assert_eq!(compiler.scope_index, 1);
    compiler.emit(Opcode::OpSub);
    assert_eq!(compiler.scopes[compiler.scope_index].instructions.0.len(), 1);
    let last = &compiler.scopes[compiler.scope_index].last_instruction;
    assert_eq!(last.as_ref().unwrap().opcode, Opcode::OpSub);
    assert_eq!(compiler.symbol_table_stack.stack.len(), 2);

    compiler.leave_scope();
    assert_eq!(compiler.scope_index, 0);
    assert_eq!(compiler.symbol_table_stack.stack.len(), 1);

    compiler.emit(Opcode::OpAdd);
    assert_eq!(compiler.scopes[compiler.scope_index].instructions.0.len(), 2);
    let last = &compiler.scopes[compiler.scope_index].last_instruction;
    assert_eq!(last.as_ref().unwrap().opcode, Opcode::OpAdd);
    let previous = &compiler.scopes[compiler.scope_index].previous_instruction;
    assert_eq!(previous.as_ref().unwrap().opcode, Opcode::OpMul);
}

#[test]
fn test_function_calls() {
    let tests = vec![
        (
            "fn() { 24 }()",
            vec![
                Expect::Integer(24),
                Expect::Instructions(vec![
                    make_with_operands(Opcode::OpConstant, &[0]),
                    make(Opcode::OpReturnValue),
                ]),
            ],
            vec![
                make_with_operands(Opcode::OpConstant, &[1]),
                make_with_operands(Opcode::OpCall, &[0]),
                make(Opcode::OpPop),
            ],
        ),
        (
            r#"
                let noArg = fn() { 24 };
                noArg();
                "#,
            vec![
                Expect::Integer(24),
                Expect::Instructions(vec![
                    make_with_operands(Opcode::OpConstant, &[0]),
                    make(Opcode::OpReturnValue),
                ]),
            ],
            vec![
                make_with_operands(Opcode::OpConstant, &[1]),
                make_with_operands(Opcode::OpSetGlobal, &[0]),
                make_with_operands(Opcode::OpGetGlobal, &[0]),
                make_with_operands(Opcode::OpCall, &[0]),
                make(Opcode::OpPop),
            ],
        ),
        (
            r#"
                let oneArg = fn(a) { a };
                oneArg(24);
                "#,
            vec![
                Expect::Instructions(vec![
                    make_with_operands(Opcode::OpGetLocal, &[0]),
                    make(Opcode::OpReturnValue),
                ]),
                Expect::Integer(24),
            ],
            vec![
                make_with_operands(Opcode::OpConstant, &[0]),
                make_with_operands(Opcode::OpSetGlobal, &[0]),
                make_with_operands(Opcode::OpGetGlobal, &[0]),
                make_with_operands(Opcode::OpConstant, &[1]),
                make_with_operands(Opcode::OpCall, &[1]),
                make(Opcode::OpPop),
            ],
        ),
        (
            r#"
                let manyArg = fn(a, b, c) { a; b; c };
                manyArg(24, 25, 26);
                "#,
            vec![
                Expect::Instructions(vec![
                    make_with_operands(Opcode::OpGetLocal, &[0]),
                    make(Opcode::OpPop),
                    make_with_operands(Opcode::OpGetLocal, &[1]),
                    make(Opcode::OpPop),
                    make_with_operands(Opcode::OpGetLocal, &[2]),
                    make(Opcode::OpReturnValue),
                ]),
                Expect::Integer(24),
                Expect::Integer(25),
                Expect::Integer(26),
            ],
            vec![
                make_with_operands(Opcode::OpConstant, &[0]),
                make_with_operands(Opcode::OpSetGlobal, &[0]),
                make_with_operands(Opcode::OpGetGlobal, &[0]),
                make_with_operands(Opcode::OpConstant, &[1]),
                make_with_operands(Opcode::OpConstant, &[2]),
                make_with_operands(Opcode::OpConstant, &[3]),
                make_with_operands(Opcode::OpCall, &[3]),
                make(Opcode::OpPop),
            ],
        ),
    ];
    for (input, constants, ins) in tests {
        run_compile_test(input, constants, ins);
    }
}

#[test]
fn test_let_statement_scopes() {
    let tests = vec![
        (
            r#"
                let num = 55;
                fn() { num }
                "#,
            vec![
                Expect::Integer(55),
                Expect::Instructions(vec![
                    make_with_operands(Opcode::OpGetGlobal, &[0]),
                    make(Opcode::OpReturnValue),
                ]),
            ],
            vec![
                make_with_operands(Opcode::OpConstant, &[0]),
                make_with_operands(Opcode::OpSetGlobal, &[0]),
                make_with_operands(Opcode::OpConstant, &[1]),
                make(Opcode::OpPop),
            ],
        ),
        (
            r#"
                fn() {
                    let num = 55;
                    num
                }
                "#,
            vec![
                Expect::Integer(55),
                Expect::Instructions(vec![
                    make_with_operands(Opcode::OpConstant, &[0]),
                    make_with_operands(Opcode::OpSetLocal, &[0]),
                    make_with_operands(Opcode::OpGetLocal, &[0]),
                    make(Opcode::OpReturnValue),
                ]),
            ],
            vec![make_with_operands(Opcode::OpConstant, &[1]), make(Opcode::OpPop)],
        ),
        (
            r#"
                fn() {
                    let a = 55;
                    let b = 77;
                    a + b
                }
                "#,
            vec![
                Expect::Integer(55),
                Expect::Integer(77),
                Expect::Instructions(vec![
                    make_with_operands(Opcode::OpConstant, &[0]),
                    make_with_operands(Opcode::OpSetLocal, &[0]),
                    make_with_operands(Opcode::OpConstant, &[1]),
                    make_with_operands(Opcode::OpSetLocal, &[1]),
                    make_with_operands(Opcode::OpGetLocal, &[0]),
                    make_with_operands(Opcode::OpGetLocal, &[1]),
                    make(Opcode::OpAdd),
                    make(Opcode::OpReturnValue),
                ]),
            ],
            vec![make_with_operands(Opcode::OpConstant, &[2]), make(Opcode::OpPop)],
        ),
    ];
    for (input, constants, ins) in tests {
        run_compile_test(input, constants, ins);
    }
}

// ---------------------------------------------------------------------
// Symbol table tests.
// ---------------------------------------------------------------------

#[test]
fn test_define() {
    let expected_a = Symbol { name: String::from("a"), scope: SymbolScope::Global, index: 0 };
    let expected_b = Symbol { name: String::from("b"), scope: SymbolScope::Global, index: 1 };
    let expected_c = Symbol { name: String::from("c"), scope: SymbolScope::Local, index: 0 };
    let expected_d = Symbol { name: String::from("d"), scope: SymbolScope::Local, index: 1 };
    let expected_e = Symbol { name: String::from("e"), scope: SymbolScope::Local, index: 0 };
    let expected_f = Symbol { name: String::from("f"), scope: SymbolScope::Local, index: 1 };

    let mut stack = new_symbol_table_stack();

    let a = stack.define("a");
    assert_eq!(expected_a, a);
    let b = stack.define("b");
    assert_eq!(expected_b, b);

    stack.push();
    let c = stack.define("c");
    assert_eq!(expected_c, c);
    let d = stack.define("d");
    assert_eq!(expected_d, d);

    stack.push();
    let e = stack.define("e");
    assert_eq!(expected_e, e);
    let f = stack.define("f");
    assert_eq!(expected_f, f);
}

#[test]
fn test_resolve_global() {
    let mut stack = new_symbol_table_stack();
    stack.define("a");
    stack.define("b");

    let expected = [
        Symbol { name: String::from("a"), scope: SymbolScope::Global, index: 0 },
        Symbol { name: String::from("b"), scope: SymbolScope::Global, index: 1 },
    ];

    for sym in &expected {
        if let Some(result) = stack.resolve(&sym.name) {
            assert_eq!(*sym, result);
        } else {
            panic!("name {} not resolvable", sym.name);
        }
    }
}

#[test]
fn test_resolve_local() {
    let mut stack = new_symbol_table_stack();

    stack.define("a");
    stack.define("b");

    stack.push();
    stack.define("c");
    stack.define("d");

    let expected = vec![
        Symbol { name: String::from("a"), scope: SymbolScope::Global, index: 0 },
        Symbol { name: String::from("b"), scope: SymbolScope::Global, index: 1 },
        Symbol { name: String::from("c"), scope: SymbolScope::Local, index: 0 },
        Symbol { name: String::from("d"), scope: SymbolScope::Local, index: 1 },
    ];

    for sym in &expected {
        if let Some(result) = stack.resolve(&sym.name) {
            assert_eq!(*sym, result);
        } else {
            panic!("name {} not resulved", sym.name);
        }
    }
}

#[test]
fn test_resolve_nested_local() {
    let mut stack = new_symbol_table_stack();

    stack.define("a");
    stack.define("b");

    stack.push();
    stack.define("c");
    stack.define("d");

    stack.push();
    stack.define("e");
    stack.define("f");

    {
        let tests = [
            Symbol { name: String::from("a"), scope: SymbolScope::Global, index: 0 },
            Symbol { name: String::from("b"), scope: SymbolScope::Global, index: 1 },
            Symbol { name: String::from("e"), scope: SymbolScope::Local, index: 0 },
            Symbol { name: String::from("f"), scope: SymbolScope::Local, index: 1 },
        ];
        for sym in &tests {
            if let Some(result) = stack.resolve(&sym.name) {
                assert_eq!(*sym, result);
            } else {
                panic!("name {} not resulved", sym.name);
            }
        }
    }

    stack.pop();
    {
        let tests = [
            Symbol { name: String::from("a"), scope: SymbolScope::Global, index: 0 },
            Symbol { name: String::from("b"), scope: SymbolScope::Global, index: 1 },
            Symbol { name: String::from("c"), scope: SymbolScope::Local, index: 0 },
            Symbol { name: String::from("d"), scope: SymbolScope::Local, index: 1 },
        ];
        for sym in &tests {
            if let Some(result) = stack.resolve(&sym.name) {
                assert_eq!(*sym, result);
            } else {
                panic!("name {} not resulved", sym.name);
            }
        }
    }
}

// ---------------------------------------------------------------------
// Virtual machine tests.
// ---------------------------------------------------------------------

fn int_vm_tests(tests: Vec<(&str, i64)>) {
    run_vm_tests(tests.into_iter().map(|(i, v)| (i, Expect::Integer(v))).collect());
}

#[test]
fn vm_test_integer_arithmetic() {
    let tests = vec![
        ("1", 1),
        ("2", 2),
        ("1 + 2", 3),
        ("1 - 2", -1),
        ("1 * 2", 2),
        ("4 / 2", 2),
        ("50 / 2 * 2 + 10 - 5", 55),
        ("5 + 5 + 5 + 5 - 10", 10),
        ("2 * 2 * 2 * 2 * 2", 32),
        ("5 * 2 + 10", 20),
        ("5 + 2 * 10", 25),
        ("5 * (2 + 10)", 60),
        ("-5", -5),
        ("-10", -10),
        ("-50 + 100 + -50", 0),
        ("(5 + 10 * 2 + 15 / 3) * 2 + -10", 50),
    ];
    int_vm_tests(tests);
}

#[test]
fn test_integer_arithmetic() {
    let tests = vec![
        ("1", 1),
        ("2", 2),
        ("1 + 2", 3),
        ("1 - 2", -1),
        ("1 * 2", 2),
        ("4 / 2", 2),
        ("50 / 2 * 2 + 10 - 5", 55),
        ("5 + 5 + 5 + 5 - 10", 10),
        ("2 * 2 * 2 * 2 * 2", 32),
        ("5 * 2 + 10", 20),
        ("5 + 2 * 10", 25),
        ("5 * (2 + 10)", 60),
        ("-5", -5),
        ("-10", -10),
        ("-50 + 100 + -50", 0),
        ("(5 + 10 * 2 + 15 / 3) * 2 + -10", 50),
    ];
    int_vm_tests(tests);
}

#[test]
fn vm_test_boolean_expressions() {
    let tests = vec![
        ("true", true),
        ("false", false),
        ("1 < 2", true),
        ("1 > 2", false),
        ("1 < 1", false),
        ("1 > 1", false),
        ("1 == 1", true),
        ("1 != 1", false),
        ("1 == 2", false),
        ("1 != 2", true),
        ("true == true", true),
        ("false == false", true),
        ("true == false", false),
        ("true != false", true),
        ("false != true", true),
        ("(1 < 2) == true", true),
        ("(1 < 2) == false", false),
        ("(1 > 2) == true", false),
        ("(1 > 2) == false", true),
        ("!true", false),
        ("!false", true),
        ("!5", false),
        ("!!true", true),
        ("!!false", false),
        ("!!5", true),
        ("!(if (false) { 5; })", true),
    ];
    run_vm_tests(tests.into_iter().map(|(i, v)| (i, Expect::Boolean(v))).collect());
}

#[test]
fn test_boolean_expressions() {
    let tests = vec![
        ("true", true),
        ("false", false),
        ("1 < 2", true),
        ("1 > 2", false),
        ("1 < 1", false),
        ("1 > 1", false),
        ("1 == 1", true),
        ("1 != 1", false),
        ("1 == 2", false),
        ("1 != 2", true),
        ("true == true", true),
        ("false == false", true),
        ("true == false", false),
        ("true != false", true),
        ("false != true", true),
        ("(1 < 2) == true", true),
        ("(1 < 2) == false", false),
        ("(1 > 2) == true", false),
        ("(1 > 2) == false", true),
        ("!true", false),
        ("!false", true),
        ("!5", false),
        ("!!true", true),
        ("!!false", false),
        ("!!5", true),
        ("!(if (false) { 5; })", true),
    ];
    run_vm_tests(tests.into_iter().map(|(i, v)| (i, Expect::Boolean(v))).collect());
}

#[test]
fn vm_test_conditionals() {
    let tests = vec![
        ("if (true) { 10 }", 10),
        ("if (true) { 10 } else { 20 }", 10),
        ("if (false) { 10 } else { 20 }", 20),
        ("if (1) { 10 }", 10),
        ("if (1 < 2) { 10 }", 10),
        ("if (1 < 2) { 10 } else { 20 }", 10),
        ("if (1 > 2) { 10 } else { 20 }", 20),
        ("if ((if (false) { 10 })) { 10 } else { 20 }", 20),
    ];
    int_vm_tests(tests);
    run_vm_tests(vec![
        ("if (1 > 2) { 10 }", Expect::Null),
        ("if (false) { 10 }", Expect::Null),
    ]);
}

#[test]
fn test_conditionals() {
    let tests = vec![
        ("if (true) { 10 }", 10),
        ("if (true) { 10 } else { 20 }", 10),
        ("if (false) { 10 } else { 20 }", 20),
        ("if (1) { 10 }", 10),
        ("if (1 < 2) { 10 }", 10),
        ("if (1 < 2) { 10 } else { 20 }", 10),
        ("if (1 > 2) { 10 } else { 20 }", 20),
        ("if ((if (false) { 10 })) { 10 } else { 20 }", 20),
    ];
    int_vm_tests(tests);
    run_vm_tests(vec![
        ("if (1 > 2) { 10 }", Expect::Null),
        ("if (false) { 10 }", Expect::Null),
    ]);
}

#[test]
fn vm_test_global_let_statements() {
    let tests = vec![
        ("let one = 1; one", 1),
        ("let one = 1; let two = 2; one + two", 3),
        ("let one = 1; let two = one + one; one + two", 3),
    ];
    int_vm_tests(tests);
}

#[test]
fn test_global_let_statements() {
    let tests = vec![
        ("let one = 1; one", 1),
        ("let one = 1; let two = 2; one + two", 3),
        ("let one = 1; let two = one + one; one + two", 3),
    ];
    int_vm_tests(tests);
}

#[test]
fn vm_test_string_expressions() {
    let tests = vec![
        (r#""monkey""#, Expect::Str("monkey")),
        (r#""mon" + "key""#, Expect::Str("monkey")),
        (r#""mon" + "key" + "banana""#, Expect::Str("monkeybanana")),
    ];
    run_vm_tests(tests);
}

#[test]
fn test_string_expressions() {
    let tests = vec![
        (r#""monkey""#, Expect::Str("monkey")),
        (r#""mon" + "key""#, Expect::Str("monkey")),
        (r#""mon" + "key" + "banana""#, Expect::Str("monkeybanana")),
    ];
    run_vm_tests(tests);
}

#[test]
fn test_array_literals() {
    let tests = vec![
        ("[]", Expect::IntArray(vec![])),
        ("[1, 2, 3]", Expect::IntArray(vec![1, 2, 3])),
        ("[1 + 2, 3 * 4, 5 + 6]", Expect::IntArray(vec![3, 12, 11])),
    ];
    run_vm_tests(tests);
}

#[test]
fn test_hash_literals() {
    let tests = vec![
        ("{}", Expect::IntHash(vec![])),
        ("{1: 2, 2: 3}", Expect::IntHash(vec![(1, 2), (2, 3)])),
        ("{1 + 1: 2 * 2, 3 + 3: 4 * 4}", Expect::IntHash(vec![(2, 4), (6, 16)])),
    ];
    run_vm_tests(tests);
}

#[test]
fn test_index_expressions() {
    let tests = vec![
        ("[1, 2, 3][1]", 2),
        ("[1, 2, 3][0 + 2]", 3),
        ("[[1, 1, 1]][0][0]", 1),
        ("{1: 1, 2: 2}[1]", 1),
        ("{1: 1, 2: 2}[2]", 2),
    ];
    int_vm_tests(tests);
    run_vm_tests(vec![
        ("[][0]", Expect::Null),
        ("[1, 2, 3][99]", Expect::Null),
        ("[1][-1]", Expect::Null),
        ("{1: 1}[0]", Expect::Null),
        ("{}[0]", Expect::Null),
    ]);
}

#[test]
fn test_calling_functions_wihtout_arguments() {
    let tests = vec![
        (
            r#"
                let fivePlusTen = fn() { 5 + 10 };
                fivePlusTen();
                "#,
            15,
        ),
        (
            r#"
                let one = fn() { 1 };
                let two = fn() { 2 };
                one() + two()
                "#,
            3,
        ),
        (
            r#"
                let a = fn() { 1 };
                let b = fn() { a() + 1 };
                let c = fn() { b() + 1 };
                c();
                "#,
            3,
        ),
    ];
    int_vm_tests(tests);
}

#[test]
fn test_functions_with_return_statement() {
    let tests = vec![
        (
            r#"
                let earlyExit = fn() { return 99; 100; };
                earlyExit();
                "#,
            99,
        ),
        (
            r#"
                let earlyExit = fn() { return 99; return 100; };
                earlyExit();
                "#,
            99,
        ),
    ];
    int_vm_tests(tests);
}

#[test]
fn test_functions_without_return_value() {
    let tests = vec![
        (
            r#"
                let noReturn = fn() { };
                noReturn();
                "#,
            Expect::Null,
        ),
        (
            r#"
                let noReturn = fn() { };
                let noReturnTwo = fn() { noReturn() };
                noReturn();
                noReturnTwo();
                "#,
            Expect::Null,
        ),
    ];
    run_vm_tests(tests);
}

#[test]
fn test_first_class_functions() {
    let tests = vec![(
        r#"
            let returnsOne = fn() { 1; };
            let returnsOneReturner = fn() { returnsOne };
            returnsOneReturner()();
            "#,
        1,
    )];
    int_vm_tests(tests);
}

// ---------------------------------------------------------------------
// Functions with arguments and locals, run end to end.
// ---------------------------------------------------------------------

#[test]
fn test_calling_functions_with_arguments() {
    let tests = vec![
        ("let identity = fn(a) { a; }; identity(4);", 4),
        ("let sum = fn(a, b) { a + b; }; sum(1, 2);", 3),
        ("let sum = fn(a, b) { let c = a + b; c; }; sum(1, 2);", 3),
        ("let sum = fn(a, b) { let c = a + b; c; }; sum(1, 2) + sum(3, 4);", 10),
        ("let globalNum = 10; let minusOne = fn() { globalNum - 1; }; minusOne();", 9),
    ];
    int_vm_tests(tests);
}

// ---------------------------------------------------------------------
// Error reporting.
// ---------------------------------------------------------------------

#[test]
fn test_compile_errors() {
    assert_eq!(compile_failure("foobar"), "undefined variable: foobar");
    let program = Program {
        statements: vec![Statement::ExpressionStatement {
            expression: Expression::InfixExpression {
                operator: String::from("&"),
                left: Box::new(Expression::IntegerLiteral { value: 1 }),
                right: Box::new(Expression::IntegerLiteral { value: 2 }),
            },
        }],
    };
    let mut compiler = Compiler::new();
    assert_eq!(compiler.compile(program), Err(String::from("unknown operator &")));
    let program = Program {
        statements: vec![Statement::ExpressionStatement {
            expression: Expression::PrefixExpression {
                operator: String::from("~"),
                right: Box::new(Expression::IntegerLiteral { value: 2 }),
            },
        }],
    };
    let mut compiler = Compiler::new();
    assert_eq!(compiler.compile(program), Err(String::from("unknown operator ~")));
}

#[test]
fn test_runtime_errors() {
    assert_eq!(vm_error("5 + true"), "unsupported object: right: Boolean, left: Integer");
    assert_eq!(vm_error("5 + true; 5;"), "unsupported object: right: Boolean, left: Integer");
    assert_eq!(vm_error("-true"), "unsupported type for negation: Boolean");
    assert_eq!(vm_error("5 / 0"), "division by zero");
    assert_eq!(vm_error(r#""a" - "b""#), "unknown string operator: OpSub");
    assert_eq!(vm_error("true > false"), "unknown operator: OpGreaterThan Boolean Boolean");
    assert_eq!(vm_error("5(1)"), "calling non-function");
    assert_eq!(vm_error("5[0]"), "index operator not supported: Integer");
    assert_eq!(vm_error("{[1]: 2}"), "unusable as hash key: Array");
    assert_eq!(vm_error("{1: 2}[[1]]"), "unusable as hash key: Array");
}

// ---------------------------------------------------------------------
// Symbol table behavior: shadowing and re-binding.
// ---------------------------------------------------------------------

#[test]
fn test_redefine_rebinds_with_fresh_index() {
    let mut stack = new_symbol_table_stack();
    let first = stack.define("a");
    assert_eq!(first.index, 0);
    let second = stack.define("a");
    assert_eq!(second.index, 1);
    let resolved = stack.resolve("a").unwrap();
    assert_eq!(resolved.index, 1);
}

#[test]
fn test_outer_definition_visible_unless_shadowed() {
    let mut stack = new_symbol_table_stack();
    stack.define("a");
    stack.push();
    let outer = stack.resolve("a").unwrap();
    assert_eq!(outer.scope, SymbolScope::Global);
    assert_eq!(outer.index, 0);
    stack.define("a");
    let shadowed = stack.resolve("a").unwrap();
    assert_eq!(shadowed.scope, SymbolScope::Local);
    assert_eq!(shadowed.index, 0);
}

// ---------------------------------------------------------------------
// Encoding edges and the disassembler.
// ---------------------------------------------------------------------

#[test]
fn test_make_truncates_wide_operands() {
    let instruction = make_with_operands(Opcode::OpConstant, &[65536 + 5]);
    assert_eq!(instruction, Instructions(vec![0u8, 0u8, 5u8]));
}

#[test]
fn test_disassemble_large_offsets() {
    let mut blocks = Vec::new();
    for _ in 0..6 {
        blocks.push(make_with_operands(Opcode::OpConstant, &[7]));
    }
    let text = blocks.concat().disassemble();
    assert_eq!(
        text.as_str(),
        "0000 OpConstant 7\n0003 OpConstant 7\n0006 OpConstant 7\n0009 OpConstant 7\n0012 OpConstant 7\n0015 OpConstant 7\n"
    );
}

#[test]
fn test_opcode_bytes_round_trip() {
    for b in 0u8..=25u8 {
        let op = Opcode::from(b);
        assert_eq!(op.byte(), b);
        let encoded = make(op);
        assert_eq!(encoded.0, vec![b]);
    }
    assert_eq!(Opcode::from_byte(26), None);
    assert_eq!(Opcode::from_byte(255), None);
}

// ---------------------------------------------------------------------
// Globals shared across runs, and machine inspection.
// ---------------------------------------------------------------------

#[test]
fn test_globals_survive_between_runs() {
    let program1 = parse("let one = 1;");
    let mut comp = Compiler::new();
    comp.compile(program1).unwrap();
    let globals = new_globals_store();
    let mut vm = VM::new_with_globals_store(comp.bytecode(), globals);
    vm.run().unwrap();
    let globals = vm.into_globals();
    assert_eq!(globals.len(), 1);
    check_object(&Expect::Integer(1), &globals[0]);
}

#[test]
fn test_function_literal_local_count() {
    let program = parse("fn(a,b,c){ a; b; c }");
    let mut comp = Compiler::new();
    comp.compile(program).unwrap();
    let bytecode = comp.bytecode();
    match &bytecode.constants[0] {
        Object::CompiledFunction(func) => {
            assert_eq!(func.num_locals, 3);
            let expected = vec![
                make_with_operands(Opcode::OpGetLocal, &[0]),
                make(Opcode::OpPop),
                make_with_operands(Opcode::OpGetLocal, &[1]),
                make(Opcode::OpPop),
                make_with_operands(Opcode::OpGetLocal, &[2]),
                make(Opcode::OpReturnValue),
            ];
            assert_eq!(expected.concat(), func.instructions);
        }
        other => panic!("constant is not a CompiledFunction: {:?}", other),
    }
}

#[test]
fn test_division_truncates_toward_zero() {
    let tests = vec![("-7 / 2", -3), ("7 / 2", 3), ("-7 / -2", 3), ("7 / -2", -3)];
    int_vm_tests(tests);
}

#[test]
fn test_stack_top_empty_after_run() {
    let program = parse("1 + 2");
    let mut comp = Compiler::new();
    comp.compile(program).unwrap();
    let mut vm = VM::new_with_globals_store(comp.bytecode(), new_globals_store());
    vm.run().unwrap();
    assert!(vm.stack_top().is_none());
}
