//! A curated list of popular Rust crates for instant, zero-latency autocompletion.
use vstd::prelude::*;
use crate::text::{
    lowercase, to_lowercase, chars_of, starts_with, contains_seq, starts_with_exec,
    contains_seq_exec, chars_eq,
};

verus! {

/// A popular crate: its name and a one-line description.
#[derive(Clone, Copy, Debug)]
pub struct PopularCrate {
    pub name: &'static str,
    pub description: &'static str,
}

impl View for PopularCrate {
    type V = (Seq<char>, Seq<char>);

    open spec fn view(&self) -> (Seq<char>, Seq<char>) {
        (self.name@, self.description@)
    }
}

/// The views of a sequence of popular crates.
pub open spec fn popular_view(s: Seq<PopularCrate>) -> Seq<(Seq<char>, Seq<char>)> {
    s.map_values(|c: PopularCrate| c@)
}

/// The curated list, in order.
pub open spec fn popular_list() -> Seq<(Seq<char>, Seq<char>)> {
    seq![
        ("serde"@, "A generic serialization/deserialization framework"@),
        ("serde_json"@, "A JSON serialization file format"@),
        ("serde_yaml"@, "YAML data format for Serde"@),
        ("tokio"@, "An event-driven, non-blocking I/O platform for writing asynchronous I/O"@),
        ("anyhow"@, "Flexible concrete Error type built on std::error::Error"@),
        ("thiserror"@, "derive(Error) for struct and enum error types"@),
        ("clap"@, "A simple to use, efficient, and full-featured Command Line Argument Parser"@),
        ("reqwest"@, "higher level HTTP client library"@),
        ("axum"@, "Ergonomic and modular web framework built with Tokio, Tower, and Hyper"@),
        ("actix-web"@, "Actix web is a powerful, pragmatic, and extremely fast web framework"@),
        ("rand"@, "Random number generators and other randomness functionality"@),
        ("syn"@, "Parser for Rust source code"@),
        ("quote"@, "Quasi-quoting macro quote!(...)"@),
        ("proc-macro2"@, "A substitute implementation of the compiler's proc_macro API"@),
        ("regex"@, "An implementation of regular expressions for Rust"@),
        ("chrono"@, "Date and time library for Rust"@),
        ("log"@, "A lightweight logging facade for Rust"@),
        ("tracing"@, "Application-level tracing and diagnostic instrumentation"@),
        ("tracing-subscriber"@, "Utilities for implementing and composing tracing subscribers"@),
        ("env_logger"@, "A logging implementation for log which is configured via an environment variable"@),
        ("bytes"@, "Types and traits for working with bytes"@),
        ("futures"@, "An implementation of futures and streams"@),
        ("itertools"@, "Extra iterator adaptors, functions and macros"@),
        ("parking_lot"@, "More compact and efficient implementations of standard synchronization primitives"@),
        ("rayon"@, "Simple work-stealing parallelism for Rust"@),
        ("async-trait"@, "Type erasure for async trait methods"@),
        ("tempfile"@, "A library for managing temporary files and directories"@),
        ("uuid"@, "A library to generate and parse UUIDs"@),
        ("base64"@, "encodes and decodes base64 as bytes or utf8"@),
        ("sha2"@, "Pure Rust implementation of the SHA-2 cryptographic hash function"@),
        ("hyper"@, "A fast and correct HTTP implementation"@),
        ("tower"@, "Tower is a library of modular and reusable components for building robust network clients and servers"@),
        ("tower-http"@, "Tower services and middleware that are specific to HTTP"@),
        ("sqlx"@, "The rust SQL toolkit. Async, pure Rust, compile-time checked queries without a DSL"@),
        ("diesel"@, "A safe, extensible ORM and Query Builder for Rust"@),
        ("dotenvy"@, "A dotenv implementation for Rust"@),
        ("config"@, "Layered configuration system for Rust applications"@),
        ("crossbeam"@, "Tools for concurrent programming"@),
        ("lazy_static"@, "A macro for declaring lazily evaluated statics in Rust"@),
        ("once_cell"@, "Single assignment cells and once initialization primitives"@),
        ("bitflags"@, "A macro to generate structures which behave like bitflags"@),
        ("smallvec"@, "Store up to a small number of items on the stack"@),
        ("semver"@, "Parser and evaluator for Cargo's flavor of Semantic Versioning"@),
        ("toml"@, "A native Rust encoder and decoder of TOML-formatted files and streams"@),
        ("toml_edit"@, "A format-preserving TOML parser and editor"@),
        ("walkdir"@, "Recursively walk a directory"@),
        ("glob"@, "Support for matching file paths against Unix shell style patterns"@),
        ("flate2"@, "DEFLATE compression and decompression exposed as Read/Write streams"@),
        ("tar"@, "A library for reading and writing TAR archives and executing all TAR commands"@),
        ("zip"@, "Library for reading and writing zip archives"@),
        ("csv"@, "Fast CSV parsing with support for serde"@),
        ("image"@, "Imaging library written in Rust"@),
        ("indicatif"@, "A command line progress reporting library"@),
        ("crossterm"@, "A crossplatform terminal library for manipulating terminals"@),
        ("ratatui"@, "A library that's all about cooking up great Terminal User Interfaces"@),
        ("num_cpus"@, "Get the number of CPUs on a machine"@),
        ("heck"@, "Case conversion library for Rust"@),
        ("url"@, "URL parser for Rust"@),
        ("dashmap"@, "Blazing fast concurrent HashMap for Rust"@),
        ("indexmap"@, "A hash table with consistent order and fast iteration"@),
        ("hashbrown"@, "A Rust port of Google's SwissTable hash map"@),
        ("pin-project-lite"@, "A lightweight version of pin-project written with declarative macros"@),
        ("tower-lsp"@, "Language Server Protocol framework based on Tower"@),
        ("criterion"@, "Statistics-driven micro-benchmarking library"@),
        ("proptest"@, "Hypothesis-like property-based testing and shrinking"@),
    ]
}

/// The curated list of popular crates.
pub fn popular_crates() -> (r: Vec<PopularCrate>)
    ensures
        popular_view(r@) == popular_list(),
{
    let r = vec![
        PopularCrate { name: "serde", description: "A generic serialization/deserialization framework" },
        PopularCrate { name: "serde_json", description: "A JSON serialization file format" },
        PopularCrate { name: "serde_yaml", description: "YAML data format for Serde" },
        PopularCrate { name: "tokio", description: "An event-driven, non-blocking I/O platform for writing asynchronous I/O" },
        PopularCrate { name: "anyhow", description: "Flexible concrete Error type built on std::error::Error" },
        PopularCrate { name: "thiserror", description: "derive(Error) for struct and enum error types" },
        PopularCrate { name: "clap", description: "A simple to use, efficient, and full-featured Command Line Argument Parser" },
        PopularCrate { name: "reqwest", description: "higher level HTTP client library" },
        PopularCrate { name: "axum", description: "Ergonomic and modular web framework built with Tokio, Tower, and Hyper" },
        PopularCrate { name: "actix-web", description: "Actix web is a powerful, pragmatic, and extremely fast web framework" },
        PopularCrate { name: "rand", description: "Random number generators and other randomness functionality" },
        PopularCrate { name: "syn", description: "Parser for Rust source code" },
        PopularCrate { name: "quote", description: "Quasi-quoting macro quote!(...)" },
        PopularCrate { name: "proc-macro2", description: "A substitute implementation of the compiler's proc_macro API" },
        PopularCrate { name: "regex", description: "An implementation of regular expressions for Rust" },
        PopularCrate { name: "chrono", description: "Date and time library for Rust" },
        PopularCrate { name: "log", description: "A lightweight logging facade for Rust" },
        PopularCrate { name: "tracing", description: "Application-level tracing and diagnostic instrumentation" },
        PopularCrate { name: "tracing-subscriber", description: "Utilities for implementing and composing tracing subscribers" },
        PopularCrate { name: "env_logger", description: "A logging implementation for log which is configured via an environment variable" },
        PopularCrate { name: "bytes", description: "Types and traits for working with bytes" },
        PopularCrate { name: "futures", description: "An implementation of futures and streams" },
        PopularCrate { name: "itertools", description: "Extra iterator adaptors, functions and macros" },
        PopularCrate { name: "parking_lot", description: "More compact and efficient implementations of standard synchronization primitives" },
        PopularCrate { name: "rayon", description: "Simple work-stealing parallelism for Rust" },
        PopularCrate { name: "async-trait", description: "Type erasure for async trait methods" },
        PopularCrate { name: "tempfile", description: "A library for managing temporary files and directories" },
        PopularCrate { name: "uuid", description: "A library to generate and parse UUIDs" },
        PopularCrate { name: "base64", description: "encodes and decodes base64 as bytes or utf8" },
        PopularCrate { name: "sha2", description: "Pure Rust implementation of the SHA-2 cryptographic hash function" },
        PopularCrate { name: "hyper", description: "A fast and correct HTTP implementation" },
        PopularCrate { name: "tower", description: "Tower is a library of modular and reusable components for building robust network clients and servers" },
        PopularCrate { name: "tower-http", description: "Tower services and middleware that are specific to HTTP" },
        PopularCrate { name: "sqlx", description: "The rust SQL toolkit. Async, pure Rust, compile-time checked queries without a DSL" },
        PopularCrate { name: "diesel", description: "A safe, extensible ORM and Query Builder for Rust" },
        PopularCrate { name: "dotenvy", description: "A dotenv implementation for Rust" },
        PopularCrate { name: "config", description: "Layered configuration system for Rust applications" },
        PopularCrate { name: "crossbeam", description: "Tools for concurrent programming" },
        PopularCrate { name: "lazy_static", description: "A macro for declaring lazily evaluated statics in Rust" },
        PopularCrate { name: "once_cell", description: "Single assignment cells and once initialization primitives" },
        PopularCrate { name: "bitflags", description: "A macro to generate structures which behave like bitflags" },
        PopularCrate { name: "smallvec", description: "Store up to a small number of items on the stack" },
        PopularCrate { name: "semver", description: "Parser and evaluator for Cargo's flavor of Semantic Versioning" },
        PopularCrate { name: "toml", description: "A native Rust encoder and decoder of TOML-formatted files and streams" },
        PopularCrate { name: "toml_edit", description: "A format-preserving TOML parser and editor" },
        PopularCrate { name: "walkdir", description: "Recursively walk a directory" },
        PopularCrate { name: "glob", description: "Support for matching file paths against Unix shell style patterns" },
        PopularCrate { name: "flate2", description: "DEFLATE compression and decompression exposed as Read/Write streams" },
        PopularCrate { name: "tar", description: "A library for reading and writing TAR archives and executing all TAR commands" },
        PopularCrate { name: "zip", description: "Library for reading and writing zip archives" },
        PopularCrate { name: "csv", description: "Fast CSV parsing with support for serde" },
        PopularCrate { name: "image", description: "Imaging library written in Rust" },
        PopularCrate { name: "indicatif", description: "A command line progress reporting library" },
        PopularCrate { name: "crossterm", description: "A crossplatform terminal library for manipulating terminals" },
        PopularCrate { name: "ratatui", description: "A library that's all about cooking up great Terminal User Interfaces" },
        PopularCrate { name: "num_cpus", description: "Get the number of CPUs on a machine" },
        PopularCrate { name: "heck", description: "Case conversion library for Rust" },
        PopularCrate { name: "url", description: "URL parser for Rust" },
        PopularCrate { name: "dashmap", description: "Blazing fast concurrent HashMap for Rust" },
        PopularCrate { name: "indexmap", description: "A hash table with consistent order and fast iteration" },
        PopularCrate { name: "hashbrown", description: "A Rust port of Google's SwissTable hash map" },
        PopularCrate { name: "pin-project-lite", description: "A lightweight version of pin-project written with declarative macros" },
        PopularCrate { name: "tower-lsp", description: "Language Server Protocol framework based on Tower" },
        PopularCrate { name: "criterion", description: "Statistics-driven micro-benchmarking library" },
        PopularCrate { name: "proptest", description: "Hypothesis-like property-based testing and shrinking" },
    ];
    assert(popular_view(r@) =~= popular_list());
    r
}

/// Where a name stands in the curated list, told by its length, its first
/// character and its last two (no two names there share all four); the
/// list's length for a name that fits none of them.
spec fn popular_position(name: Seq<char>) -> int {
    let key = (name.len() as int, name[0], name[name.len() - 1], name[name.len() - 2]);
    if key == (5int, 's', 'e', 'd') {
        0
    } else if key == (10int, 's', 'n', 'o') {
        1
    } else if key == (10int, 's', 'l', 'm') {
        2
    } else if key == (5int, 't', 'o', 'i') {
        3
    } else if key == (6int, 'a', 'w', 'o') {
        4
    } else if key == (9int, 't', 'r', 'o') {
        5
    } else if key == (4int, 'c', 'p', 'a') {
        6
    } else if key == (7int, 'r', 't', 's') {
        7
    } else if key == (4int, 'a', 'm', 'u') {
        8
    } else if key == (9int, 'a', 'b', 'e') {
        9
    } else if key == (4int, 'r', 'd', 'n') {
        10
    } else if key == (3int, 's', 'n', 'y') {
        11
    } else if key == (5int, 'q', 'e', 't') {
        12
    } else if key == (11int, 'p', '2', 'o') {
        13
    } else if key == (5int, 'r', 'x', 'e') {
        14
    } else if key == (6int, 'c', 'o', 'n') {
        15
    } else if key == (3int, 'l', 'g', 'o') {
        16
    } else if key == (7int, 't', 'g', 'n') {
        17
    } else if key == (18int, 't', 'r', 'e') {
        18
    } else if key == (10int, 'e', 'r', 'e') {
        19
    } else if key == (5int, 'b', 's', 'e') {
        20
    } else if key == (7int, 'f', 's', 'e') {
        21
    } else if key == (9int, 'i', 's', 'l') {
        22
    } else if key == (11int, 'p', 't', 'o') {
        23
    } else if key == (5int, 'r', 'n', 'o') {
        24
    } else if key == (11int, 'a', 't', 'i') {
        25
    } else if key == (8int, 't', 'e', 'l') {
        26
    } else if key == (4int, 'u', 'd', 'i') {
        27
    } else if key == (6int, 'b', '4', '6') {
        28
    } else if key == (4int, 's', '2', 'a') {
        29
    } else if key == (5int, 'h', 'r', 'e') {
        30
    } else if key == (5int, 't', 'r', 'e') {
        31
    } else if key == (10int, 't', 'p', 't') {
        32
    } else if key == (4int, 's', 'x', 'l') {
        33
    } else if key == (6int, 'd', 'l', 'e') {
        34
    } else if key == (7int, 'd', 'y', 'v') {
        35
    } else if key == (6int, 'c', 'g', 'i') {
        36
    } else if key == (9int, 'c', 'm', 'a') {
        37
    } else if key == (11int, 'l', 'c', 'i') {
        38
    } else if key == (9int, 'o', 'l', 'l') {
        39
    } else if key == (8int, 'b', 's', 'g') {
        40
    } else if key == (8int, 's', 'c', 'e') {
        41
    } else if key == (6int, 's', 'r', 'e') {
        42
    } else if key == (4int, 't', 'l', 'm') {
        43
    } else if key == (9int, 't', 't', 'i') {
        44
    } else if key == (7int, 'w', 'r', 'i') {
        45
    } else if key == (4int, 'g', 'b', 'o') {
        46
    } else if key == (6int, 'f', '2', 'e') {
        47
    } else if key == (3int, 't', 'r', 'a') {
        48
    } else if key == (3int, 'z', 'p', 'i') {
        49
    } else if key == (3int, 'c', 'v', 's') {
        50
    } else if key == (5int, 'i', 'e', 'g') {
        51
    } else if key == (9int, 'i', 'f', 'i') {
        52
    } else if key == (9int, 'c', 'm', 'r') {
        53
    } else if key == (7int, 'r', 'i', 'u') {
        54
    } else if key == (8int, 'n', 's', 'u') {
        55
    } else if key == (4int, 'h', 'k', 'c') {
        56
    } else if key == (3int, 'u', 'l', 'r') {
        57
    } else if key == (7int, 'd', 'p', 'a') {
        58
    } else if key == (8int, 'i', 'p', 'a') {
        59
    } else if key == (9int, 'h', 'n', 'w') {
        60
    } else if key == (16int, 'p', 'e', 't') {
        61
    } else if key == (9int, 't', 'p', 's') {
        62
    } else if key == (9int, 'c', 'n', 'o') {
        63
    } else if key == (8int, 'p', 't', 's') {
        64
    } else {
        65
    }
}

/// Each crate of the curated list stands at the position of its own name.
proof fn lemma_popular_position(i: int)
    requires
        0 <= i < popular_list().len(),
    ensures
        popular_position(popular_list()[i].0) == i,
{
    if i == 0 {
        reveal_strlit("serde");
        assert(popular_list()[0].0 == "serde"@);
    } else if i == 1 {
        reveal_strlit("serde_json");
        assert(popular_list()[1].0 == "serde_json"@);
    } else if i == 2 {
        reveal_strlit("serde_yaml");
        assert(popular_list()[2].0 == "serde_yaml"@);
    } else if i == 3 {
        reveal_strlit("tokio");
        assert(popular_list()[3].0 == "tokio"@);
    } else if i == 4 {
        reveal_strlit("anyhow");
        assert(popular_list()[4].0 == "anyhow"@);
    } else if i == 5 {
        reveal_strlit("thiserror");
        assert(popular_list()[5].0 == "thiserror"@);
    } else if i == 6 {
        reveal_strlit("clap");
        assert(popular_list()[6].0 == "clap"@);
    } else if i == 7 {
        reveal_strlit("reqwest");
        assert(popular_list()[7].0 == "reqwest"@);
    } else if i == 8 {
        reveal_strlit("axum");
        assert(popular_list()[8].0 == "axum"@);
    } else if i == 9 {
        reveal_strlit("actix-web");
        assert(popular_list()[9].0 == "actix-web"@);
    } else if i == 10 {
        reveal_strlit("rand");
        assert(popular_list()[10].0 == "rand"@);
    } else if i == 11 {
        reveal_strlit("syn");
        assert(popular_list()[11].0 == "syn"@);
    } else if i == 12 {
        reveal_strlit("quote");
        assert(popular_list()[12].0 == "quote"@);
    } else if i == 13 {
        reveal_strlit("proc-macro2");
        assert(popular_list()[13].0 == "proc-macro2"@);
    } else if i == 14 {
        reveal_strlit("regex");
        assert(popular_list()[14].0 == "regex"@);
    } else if i == 15 {
        reveal_strlit("chrono");
        assert(popular_list()[15].0 == "chrono"@);
    } else if i == 16 {
        reveal_strlit("log");
        assert(popular_list()[16].0 == "log"@);
    } else if i == 17 {
        reveal_strlit("tracing");
        assert(popular_list()[17].0 == "tracing"@);
    } else if i == 18 {
        reveal_strlit("tracing-subscriber");
        assert(popular_list()[18].0 == "tracing-subscriber"@);
    } else if i == 19 {
        reveal_strlit("env_logger");
        assert(popular_list()[19].0 == "env_logger"@);
    } else if i == 20 {
        reveal_strlit("bytes");
        assert(popular_list()[20].0 == "bytes"@);
    } else if i == 21 {
        reveal_strlit("futures");
        assert(popular_list()[21].0 == "futures"@);
    } else if i == 22 {
        reveal_strlit("itertools");
        assert(popular_list()[22].0 == "itertools"@);
    } else if i == 23 {
        reveal_strlit("parking_lot");
        assert(popular_list()[23].0 == "parking_lot"@);
    } else if i == 24 {
        reveal_strlit("rayon");
        assert(popular_list()[24].0 == "rayon"@);
    } else if i == 25 {
        reveal_strlit("async-trait");
        assert(popular_list()[25].0 == "async-trait"@);
    } else if i == 26 {
        reveal_strlit("tempfile");
        assert(popular_list()[26].0 == "tempfile"@);
    } else if i == 27 {
        reveal_strlit("uuid");
        assert(popular_list()[27].0 == "uuid"@);
    } else if i == 28 {
        reveal_strlit("base64");
        assert(popular_list()[28].0 == "base64"@);
    } else if i == 29 {
        reveal_strlit("sha2");
        assert(popular_list()[29].0 == "sha2"@);
    } else if i == 30 {
        reveal_strlit("hyper");
        assert(popular_list()[30].0 == "hyper"@);
    } else if i == 31 {
        reveal_strlit("tower");
        assert(popular_list()[31].0 == "tower"@);
    } else if i == 32 {
        reveal_strlit("tower-http");
        assert(popular_list()[32].0 == "tower-http"@);
    } else if i == 33 {
        reveal_strlit("sqlx");
        assert(popular_list()[33].0 == "sqlx"@);
    } else if i == 34 {
        reveal_strlit("diesel");
        assert(popular_list()[34].0 == "diesel"@);
    } else if i == 35 {
        reveal_strlit("dotenvy");
        assert(popular_list()[35].0 == "dotenvy"@);
    } else if i == 36 {
        reveal_strlit("config");
        assert(popular_list()[36].0 == "config"@);
    } else if i == 37 {
        reveal_strlit("crossbeam");
        assert(popular_list()[37].0 == "crossbeam"@);
    } else if i == 38 {
        reveal_strlit("lazy_static");
        assert(popular_list()[38].0 == "lazy_static"@);
    } else if i == 39 {
        reveal_strlit("once_cell");
        assert(popular_list()[39].0 == "once_cell"@);
    } else if i == 40 {
        reveal_strlit("bitflags");
        assert(popular_list()[40].0 == "bitflags"@);
    } else if i == 41 {
        reveal_strlit("smallvec");
        assert(popular_list()[41].0 == "smallvec"@);
    } else if i == 42 {
        reveal_strlit("semver");
        assert(popular_list()[42].0 == "semver"@);
    } else if i == 43 {
        reveal_strlit("toml");
        assert(popular_list()[43].0 == "toml"@);
    } else if i == 44 {
        reveal_strlit("toml_edit");
        assert(popular_list()[44].0 == "toml_edit"@);
    } else if i == 45 {
        reveal_strlit("walkdir");
        assert(popular_list()[45].0 == "walkdir"@);
    } else if i == 46 {
        reveal_strlit("glob");
        assert(popular_list()[46].0 == "glob"@);
    } else if i == 47 {
        reveal_strlit("flate2");
        assert(popular_list()[47].0 == "flate2"@);
    } else if i == 48 {
        reveal_strlit("tar");
        assert(popular_list()[48].0 == "tar"@);
    } else if i == 49 {
        reveal_strlit("zip");
        assert(popular_list()[49].0 == "zip"@);
    } else if i == 50 {
        reveal_strlit("csv");
        assert(popular_list()[50].0 == "csv"@);
    } else if i == 51 {
        reveal_strlit("image");
        assert(popular_list()[51].0 == "image"@);
    } else if i == 52 {
        reveal_strlit("indicatif");
        assert(popular_list()[52].0 == "indicatif"@);
    } else if i == 53 {
        reveal_strlit("crossterm");
        assert(popular_list()[53].0 == "crossterm"@);
    } else if i == 54 {
        reveal_strlit("ratatui");
        assert(popular_list()[54].0 == "ratatui"@);
    } else if i == 55 {
        reveal_strlit("num_cpus");
        assert(popular_list()[55].0 == "num_cpus"@);
    } else if i == 56 {
        reveal_strlit("heck");
        assert(popular_list()[56].0 == "heck"@);
    } else if i == 57 {
        reveal_strlit("url");
        assert(popular_list()[57].0 == "url"@);
    } else if i == 58 {
        reveal_strlit("dashmap");
        assert(popular_list()[58].0 == "dashmap"@);
    } else if i == 59 {
        reveal_strlit("indexmap");
        assert(popular_list()[59].0 == "indexmap"@);
    } else if i == 60 {
        reveal_strlit("hashbrown");
        assert(popular_list()[60].0 == "hashbrown"@);
    } else if i == 61 {
        reveal_strlit("pin-project-lite");
        assert(popular_list()[61].0 == "pin-project-lite"@);
    } else if i == 62 {
        reveal_strlit("tower-lsp");
        assert(popular_list()[62].0 == "tower-lsp"@);
    } else if i == 63 {
        reveal_strlit("criterion");
        assert(popular_list()[63].0 == "criterion"@);
    } else if i == 64 {
        reveal_strlit("proptest");
        assert(popular_list()[64].0 == "proptest"@);
    }
}

/// No two crates of the curated list have the same name.
pub proof fn law_popular_names_distinct()
    ensures
        forall|i: int, j: int|
            0 <= i < j < popular_list().len() ==> popular_list()[i].0 != popular_list()[j].0,
{
    assert forall|i: int, j: int| 0 <= i < j < popular_list().len() implies popular_list()[i].0
        != popular_list()[j].0 by {
        lemma_popular_position(i);
        lemma_popular_position(j);
    }
}

/// How a crate matches a lowercase query: 0 when its lowercase name is the
/// query, 1 when its name starts with the query, 2 when its name or its
/// description contains the query, 3 otherwise.
pub open spec fn match_kind(c: (Seq<char>, Seq<char>), q: Seq<char>) -> int {
    let name = lowercase(c.0);
    if name == q {
        0
    } else if starts_with(name, q) {
        1
    } else if contains_seq(name, q) || contains_seq(lowercase(c.1), q) {
        2
    } else {
        3
    }
}

/// The crates of `list` that match `q` in the way `kind`, in order.
pub open spec fn select(list: Seq<(Seq<char>, Seq<char>)>, q: Seq<char>, kind: int) -> Seq<
    (Seq<char>, Seq<char>),
>
    decreases list.len(),
{
    if list.len() == 0 {
        seq![]
    } else {
        let rest = select(list.drop_last(), q, kind);
        if match_kind(list.last(), q) == kind {
            rest.push(list.last())
        } else {
            rest
        }
    }
}

/// The popular crates that match a query (case-insensitively): exact name
/// matches first, then names that start with the query, then names or
/// descriptions that contain it.
pub open spec fn popular_search(q: Seq<char>) -> Seq<(Seq<char>, Seq<char>)> {
    let l = lowercase(q);
    select(popular_list(), l, 0) + select(popular_list(), l, 1) + select(popular_list(), l, 2)
}

fn match_kind_exec(c: &PopularCrate, q: &[char]) -> (r: u8)
    ensures
        r == match_kind(c@, q@),
{
    let name = chars_of(to_lowercase(c.name).as_str());
    if chars_eq(name.as_slice(), q) {
        0
    } else if starts_with_exec(name.as_slice(), q) {
        1
    } else if contains_seq_exec(name.as_slice(), q) || contains_seq_exec(
        chars_of(to_lowercase(c.description).as_str()).as_slice(),
        q,
    ) {
        2
    } else {
        3
    }
}

/// Search the popular crates for a query.
pub fn search_popular_crates(query: &str) -> (r: Vec<PopularCrate>)
    ensures
        popular_view(r@) == popular_search(query@),
{
    let q = chars_of(to_lowercase(query).as_str());
    let list = popular_crates();
    let ghost lv = popular_list();
    let mut exact: Vec<PopularCrate> = Vec::new();
    let mut starts: Vec<PopularCrate> = Vec::new();
    let mut contains: Vec<PopularCrate> = Vec::new();
    let mut i: usize = 0;
    assert(lv.take(0) =~= Seq::<(Seq<char>, Seq<char>)>::empty());
    while i < list.len()
        invariant
            lv == popular_view(list@),
            i <= list@.len(),
            popular_view(exact@) == select(lv.take(i as int), q@, 0),
            popular_view(starts@) == select(lv.take(i as int), q@, 1),
            popular_view(contains@) == select(lv.take(i as int), q@, 2),
        decreases list@.len() - i,
    {
        let c = list[i];
        assert(lv[i as int] == c@);
        assert(lv.take(i + 1).drop_last() =~= lv.take(i as int));
        let k = match_kind_exec(&c, q.as_slice());
        let ghost (e0, s0, c0) = (popular_view(exact@), popular_view(starts@), popular_view(contains@));
        if k == 0 {
            exact.push(c);
            assert(popular_view(exact@) =~= e0.push(c@));
        } else if k == 1 {
            starts.push(c);
            assert(popular_view(starts@) =~= s0.push(c@));
        } else if k == 2 {
            contains.push(c);
            assert(popular_view(contains@) =~= c0.push(c@));
        }
        i = i + 1;
    }
    assert(lv.take(list@.len() as int) =~= lv);
    let ghost (e0, s0, c0) = (popular_view(exact@), popular_view(starts@), popular_view(contains@));
    let mut result = exact;
    result.append(&mut starts);
    result.append(&mut contains);
    assert(popular_view(result@) =~= e0 + s0 + c0);
    result
}

} // verus!
