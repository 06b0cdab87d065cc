//! The index of a language server.
//!
//! It knows what each source file declares in Kotlin, Java and Swift (`index`, `apply`, `merge`,
//! `ingest`, `queries`), what libraries declare, compiled or as sources (`gradle`, `jar`,
//! `jar_cache`, `jar_index`, `sources_jar`), which files there are in a workspace (`discover`,
//! `ignore_rules`, `source_paths`), what is kept of them between runs (`cache`, `cache_paths`,
//! `library`, `restore`), and what layouts and the binding classes generated from them hold
//! (`layouts`, `naming`, `binding_discovery`, `binding_field_type`).
//!
//! Questions about a position in an open file are answered from its text and its syntax tree
//! (`syntax`, `cst`, `live`): what encloses it (`scope`, `cst_scope`, `cst_lambda`), what `it`,
//! `this` and the parameters of lambdas are (`it_this`, `lambda_params`, `lambda_types`,
//! `receiver`, `sig`), where a name is declared and what its declaration reads like where the
//! user sees it (`lookup`, `resolution`, `hierarchy`, `type_subst`, `enrich`, `doc`). Files that
//! an answer needs and that are not indexed yet are told by `on_demand`.
//!
//! Contracts are stated over views: texts are sequences of characters, tables are maps, and the
//! whole index is an `index::IndexView`. What holds across functions is stated and proved in
//! `laws`, in `reload`, and in functions named `law_...` elsewhere. Modules named `law_...` say
//! of what is written in a file, in its text, its tree and its symbols, what the answers are.

pub mod apply;
pub mod binding_discovery;
pub mod binding_field_type;
pub mod brackets;
pub mod cache;
pub mod cache_paths;
pub mod columns;
pub mod contributions;
pub mod cst;
pub mod cst_lambda;
pub mod cst_scope;
pub mod deps;
pub mod discover;
pub mod doc;
pub mod enrich;
pub mod gradle;
pub mod group;
pub mod hierarchy;
pub mod ignore_rules;
pub mod index;
pub mod ingest;
pub mod it_this;
pub mod jar;
pub mod jar_cache;
pub mod jar_index;
pub mod lambda_params;
pub mod lambda_types;
pub mod law_arrows;
pub mod law_blocks;
pub mod law_calls;
pub mod law_chains;
pub mod law_classes;
pub mod law_cursors;
pub mod law_fallbacks;
pub mod law_hovers;
pub mod law_inputs;
pub mod law_lambdas;
pub mod law_lookups;
pub mod law_members;
pub mod law_positions;
pub mod law_receivers;
pub mod law_scopes;
pub mod law_sigs;
pub mod law_texts;
pub mod law_trees;
pub mod law_types;
pub mod law_words;
pub mod laws;
pub mod layouts;
pub mod library;
pub mod lists;
pub mod live;
pub mod lookup;
pub mod merge;
pub mod names;
pub mod naming;
pub mod on_demand;
pub mod paths;
pub mod queries;
pub mod receiver;
pub mod reload;
pub mod resolution;
pub mod restore;
pub mod scan;
pub mod scope;
pub mod sig;
pub mod sorting;
pub mod source_paths;
pub mod sources_jar;
pub mod syntax;
pub mod table;
pub mod text;
pub mod type_subst;
pub mod types;
pub mod unicode;
pub mod urls;
pub mod workspace;
