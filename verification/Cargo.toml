[package]
name = "rs_codeinsight"
version = "0.2.0"
edition = "2021"
publish = false

[dependencies]
ignore = "=0.4.34"
rayon = "=1.12.0"
tree-sitter = "=0.27.1"
tree-sitter-c = "=0.24.2"
tree-sitter-c-sharp = "*"
tree-sitter-cpp = "=0.23.4"
tree-sitter-go = "=0.25.0"
tree-sitter-java = "=0.23.5"
tree-sitter-javascript = "=0.25.0"
tree-sitter-json = "=0.24.8"
tree-sitter-php = "*"
tree-sitter-python = "=0.25.0"
tree-sitter-ruby = "=0.23.1"
tree-sitter-rust = "=0.24.2"
tree-sitter-typescript = "=0.23.2"
