//! Types of `it`, `this` and named parameters at positions of indexed files, given what is known
//! of the declarations round them.
use kmp_index::deps::FixedDeps;
use kmp_index::index::Indexer;
use kmp_index::it_this::find_it_element_type_in_lines;
use kmp_index::queries::cursor_node_at;
use kmp_index::receiver::lambda_receiver_type_from_context;
use kmp_index::sig::collect_params_from_line;
use kmp_index::syntax::{parse_live, Language};
use kmp_index::types::{CursorPos, FileData, Position, Range, SymbolEntry, SymbolKind, Visibility};

fn uri(path: &str) -> String {
    format!("file:///test{path}")
}

fn at(line: u32, character: u32) -> Position {
    Position { line, character }
}

fn lines_of(src: &str) -> Vec<String> {
    src.lines().map(String::from).collect()
}

fn names(list: &[&str]) -> Vec<String> {
    list.iter().map(|s| s.to_string()).collect()
}

/// The parameter list of the declaration that begins on a line of the source.
fn params(src: &str, line: usize) -> String {
    collect_params_from_line(&lines_of(src), line).expect("a parameter list")
}

/// What `name` stands for at a position of an indexed file, where its place as an argument of a
/// call is known to ask for `wanted`.
fn infer_wanted(
    u: &str,
    src: &str,
    name: &str,
    pos: Position,
    wanted: Option<&str>,
    deps: &FixedDeps,
) -> Option<String> {
    let mut idx = Indexer::new();
    let data = FileData {
        lines: lines_of(src),
        ..FileData::default()
    };
    idx.index_content(u, src, data, None);
    let doc = parse_live(src, Language::Kotlin).unwrap();
    idx.infer_lambda_param_type_at_with_cache(
        name,
        u,
        pos,
        Some(&doc),
        wanted.map(String::from),
        deps,
    )
}

fn infer(u: &str, src: &str, name: &str, pos: Position, deps: &FixedDeps) -> Option<String> {
    infer_wanted(u, src, name, pos, None, deps)
}

// `it` and named parameters

#[test]
fn hover_it_type_detection() {
    let src = "val items: List<Product> = emptyList()\nitems.forEach { it.name }";
    let u = uri("/t.kt");
    let deps = FixedDeps::new().with_var(&u, "items", "List<Product>");
    let col = "items.forEach { ".len() as u32;
    let result = infer(&u, src, "it", at(1, col), &deps);
    assert_eq!(result.as_deref(), Some("Product"), "hover should detect it: Product");
}

#[test]
fn hover_it_type_multiline() {
    let src = "val items: List<User> = emptyList()\nitems.forEach {\n    val x = it.id\n}";
    let u = uri("/t.kt");
    let deps = FixedDeps::new().with_var(&u, "items", "List<User>");
    let col = "    val x = ".len() as u32;
    let result = infer(&u, src, "it", at(2, col), &deps);
    assert_eq!(result.as_deref(), Some("User"), "hover multiline it: User");
}

#[test]
fn hover_named_param_type_detection() {
    let src = "val items: List<Order> = emptyList()\nitems.forEach { order ->\n    order.id\n}";
    let u = uri("/t.kt");
    let deps = FixedDeps::new().with_var(&u, "items", "List<Order>");
    let col = "    ".len() as u32;
    let result = infer(&u, src, "order", at(2, col), &deps);
    assert_eq!(result.as_deref(), Some("Order"));
}

// Trailing lambdas of declared functions

#[test]
fn trailing_lambda_it_from_fun_def() {
    let src = "\
private fun <T : Any> loadProduct(key: ProductKey, flow: Flow<ResultState<T>>, map: (ResultState<T>) -> StatefulModel) {
}
fun use() { loadProduct(k, f) { it.value } }";
    let u = uri("/t.kt");
    let deps = FixedDeps::new().with_fun(&u, "loadProduct", &params(src, 0));
    let result = lambda_receiver_type_from_context("loadProduct(k, f) ", &deps, &u);
    assert_eq!(
        result.as_deref(),
        Some("ResultState"),
        "trailing lambda it should resolve to ResultState, got: {result:?}"
    );
}

#[test]
fn nested_lambda_it_type_resolved_through_outer_brace() {
    let src = "package com.example\nfun setState(reducer: (State) -> State) {}\nclass State\n";
    let u = uri("/t.kt");
    let deps = FixedDeps::new().with_fun(&u, "setState", &params(src, 1));
    let result = lambda_receiver_type_from_context("    { setState ", &deps, &u);
    assert_eq!(
        result.as_deref(),
        Some("State"),
        "it inside nested setState lambda should resolve to State, got: {result:?}"
    );
}

#[test]
fn inline_lambda_param_type_detection() {
    let src = "\
fun reloadableProduct(key: ProductKey, refresher: (Boolean) -> Flow<ResultState<T>>, map: (ResultState<T>) -> StatefulModel) {}
fun use() { reloadableProduct(ProductKey.FAMILY, { isRefresh -> null }) { it } }";
    let u = uri("/t.kt");
    let deps = FixedDeps::new().with_fun(&u, "reloadableProduct", &params(src, 0));
    let before = "reloadableProduct(ProductKey.FAMILY, ";
    let result = lambda_receiver_type_from_context(before, &deps, &u);
    assert_eq!(
        result.as_deref(),
        Some("Boolean"),
        "inline lambda param should be Boolean, got: {result:?}"
    );
}

#[test]
fn trailing_lambda_method_it_not_confused_by_arg_dot() {
    let src = "fun reloadableProduct(key: ProductKey, map: (ResultState<T>) -> StatefulModel) {}\n";
    let u = uri("/t.kt");
    let deps = FixedDeps::new().with_fun(&u, "reloadableProduct", &params(src, 0));
    let before = "reloadableProduct(ProductKey.FAMILY) ";
    let result = lambda_receiver_type_from_context(before, &deps, &u);
    assert_eq!(
        result.as_deref(),
        Some("ResultState"),
        "trailing lambda with dot-in-arg should still resolve, got: {result:?}"
    );
}

const LOAD_PRODUCT: &str = "\
private fun <T : Any> loadProduct(
    key: ProductKey,
    productFlow: Flow<ResultState<T>>,
    map: (ResultState<T>) -> StatefulModel
) {}
fun use() {
    loadProduct(ProductKey.DEPOSIT, productsUseCases.getDepositAccountData()) { overviewMapper.depositAccToView(it) }
}
";

#[test]
fn trailing_lambda_it_with_method_call_arg() {
    let u = uri("/t.kt");
    let deps = FixedDeps::new().with_fun(&u, "loadProduct", &params(LOAD_PRODUCT, 0));
    let before = "    loadProduct(ProductKey.DEPOSIT, productsUseCases.getDepositAccountData()) ";
    let result = lambda_receiver_type_from_context(before, &deps, &u);
    assert_eq!(
        result.as_deref(),
        Some("ResultState"),
        "loadProduct trailing lambda it type, got: {result:?}"
    );
}

#[test]
fn reloadable_product_resultstate_not_boolean() {
    let src = "\
private fun <T : Any> reloadableProduct(
    key: ProductKey,
    productFlow: (isRefresh: Boolean) -> Flow<ResultState<T>>,
    map: (ResultState<T>) -> StatefulModel<SortableProducts>,
) {}
fun use() {
    reloadableProduct(ProductKey.FAMILY, { isRefresh -> null }) { resultState ->
        resultState.value
    }
}
";
    let u = uri("/t.kt");
    let deps = FixedDeps::new().with_fun(&u, "reloadableProduct", &params(src, 0));
    let before = "    reloadableProduct(ProductKey.FAMILY, { isRefresh -> null }) ";
    let result = lambda_receiver_type_from_context(before, &deps, &u);
    assert_eq!(
        result.as_deref(),
        Some("ResultState"),
        "resultState should resolve to ResultState not Boolean, got: {result:?}"
    );
}

#[test]
fn trailing_lambda_it_infer_at_cursor() {
    let u = uri("/t.kt");
    let deps = FixedDeps::new()
        .with_fun(&u, "loadProduct", &params(LOAD_PRODUCT, 0))
        .with_callable_info("loadProduct", names(&["T"]), "");
    let call_line = "    loadProduct(ProductKey.DEPOSIT, productsUseCases.getDepositAccountData()) { overviewMapper.depositAccToView(";
    let col = call_line.len() as u32;
    let result = infer(&u, LOAD_PRODUCT, "it", at(6, col), &deps);
    assert_eq!(
        result.as_deref(),
        Some("ResultState"),
        "infer_lambda_param_type_at for it in loadProduct, got: {result:?}"
    );
}

// `this`

#[test]
fn this_in_run_resolves_to_receiver_type() {
    let u = uri("/t.kt");
    let deps = FixedDeps::new().with_var(&u, "user", "User");
    let result = lambda_receiver_type_from_context("user.run ", &deps, &u);
    assert_eq!(
        result.as_deref(),
        Some("User"),
        "this in obj.run should be User, got: {result:?}"
    );
}

#[test]
fn this_infer_lambda_param_type_at() {
    let src = "val user: User = User()\nuser.run { this.name }";
    let u = uri("/t.kt");
    let deps = FixedDeps::new().with_var(&u, "user", "User");
    let col = "user.run { ".len() as u32;
    let result = infer(&u, src, "this", at(1, col), &deps);
    assert_eq!(
        result.as_deref(),
        Some("User"),
        "infer_lambda_param_type_at for this, got: {result:?}"
    );
}

#[test]
fn with_scope_function_this_type() {
    let u = uri("/t.kt");
    let deps = FixedDeps::new().with_var(&u, "user", "User");
    let result = lambda_receiver_type_from_context("with(user) ", &deps, &u);
    assert_eq!(
        result.as_deref(),
        Some("User"),
        "with(user) this should be User, got: {result:?}"
    );
}

#[test]
fn this_in_class_method_resolves_to_class() {
    let src = "\
class OverviewViewModel {
    override fun handleEvent(event: Event) {
        this.doSomething()
    }
}
";
    let col = "        ".len() as u32;
    let result = infer(&uri("/t.kt"), src, "this", at(2, col), &FixedDeps::new());
    assert_eq!(
        result.as_deref(),
        Some("OverviewViewModel"),
        "this in class method should resolve to enclosing class, got: {result:?}"
    );
}

#[test]
fn this_in_class_method_lambda_scope_wins() {
    let src = "\
class Vm {
    fun go() {
        val user: User = getUser()
        user.run {
            this.name
        }
    }
}
";
    let u = uri("/t.kt");
    let deps = FixedDeps::new().with_var(&u, "user", "User");
    let col = "            ".len() as u32;
    let result = infer(&u, src, "this", at(4, col), &deps);
    assert_eq!(
        result.as_deref(),
        Some("User"),
        "this inside run lambda should be User not Vm, got: {result:?}"
    );
}

#[test]
fn this_as_named_arg_resolves_param_type() {
    let src = "\
fun send(channel: SendChannel): Unit = TODO()
fun go() {
    something.send(channel = this)
}
";
    let u = uri("/t.kt");
    let deps = FixedDeps::new().with_fun(&u, "send", &params(src, 0));
    let col = "    something.send(channel = ".len() as u32;
    let result = infer_wanted(&u, src, "this", at(2, col), Some("SendChannel"), &deps);
    assert_eq!(
        result.as_deref(),
        Some("SendChannel"),
        "this as named arg should hint param type, got: {result:?}"
    );
}

#[test]
fn it_as_positional_arg_resolves_param_type() {
    let src = "\
fun process(value: Item): Unit = TODO()
fun go() {
    list.forEach { process(it) }
}
";
    let u = uri("/t.kt");
    let deps = FixedDeps::new().with_fun(&u, "process", &params(src, 0));
    let col = "    list.forEach { process(".len() as u32;
    let result = infer_wanted(&u, src, "it", at(2, col), Some("Item"), &deps);
    assert_eq!(
        result.as_deref(),
        Some("Item"),
        "it as positional arg should hint param type, got: {result:?}"
    );
    assert_eq!(infer(&u, src, "it", at(2, col), &deps), None);
}

#[test]
fn it_as_named_arg_resolves_param_type() {
    let src = "\
fun process(value: Widget): Unit = TODO()
fun go() {
    process(value = it)
}
";
    let u = uri("/t.kt");
    let deps = FixedDeps::new().with_fun(&u, "process", &params(src, 0));
    let col = "    process(value = ".len() as u32;
    let result = infer_wanted(&u, src, "it", at(2, col), Some("Widget"), &deps);
    assert_eq!(
        result.as_deref(),
        Some("Widget"),
        "it as named arg should hint param type, got: {result:?}"
    );
}

#[test]
fn it_positional_second_arg() {
    let src = "\
fun pair(a: String, b: Number): Unit = TODO()
fun go() {
    pair(\"x\", it)
}
";
    let u = uri("/t.kt");
    let deps = FixedDeps::new().with_fun(&u, "pair", &params(src, 0));
    let col = "    pair(\"x\", ".len() as u32;
    let result = infer_wanted(&u, src, "it", at(2, col), Some("Number"), &deps);
    assert_eq!(
        result.as_deref(),
        Some("Number"),
        "it as second positional arg should be Number, got: {result:?}"
    );
}

#[test]
fn this_in_regular_lambda_no_lambda_hint() {
    let src = "\
class Reducer {
    fun reduce(event: String, block: (String) -> String): Unit = TODO()
    fun go(event: String) {
        reduce(event) { this }
    }
}
";
    let u = uri("/t.kt");
    let deps = FixedDeps::new()
        .with_fun(&u, "reduce", &params(src, 1))
        .with_callable_info("reduce", vec![], "");
    let col = "        reduce(event) { ".len() as u32;
    let result = infer(&u, src, "this", at(3, col), &deps);
    assert_eq!(
        result.as_deref(),
        Some("Reducer"),
        "this in regular lambda should be enclosing class, got: {result:?}"
    );
}

#[test]
fn this_in_receiver_lambda_indexed_function() {
    let src = "\
class Ctx
fun withCtx(block: Ctx.() -> Unit): Unit = TODO()
val ctx: Ctx = Ctx()
val _ = ctx.withCtx { this }
";
    let u = uri("/t.kt");
    let deps = FixedDeps::new()
        .with_var(&u, "ctx", "Ctx")
        .with_fun(&u, "withCtx", &params(src, 1))
        .with_callable_info("withCtx", vec![], "");
    let col = "val _ = ctx.withCtx { ".len() as u32;
    let result = infer(&u, src, "this", at(3, col), &deps);
    assert_eq!(
        result.as_deref(),
        Some("Ctx"),
        "this inside receiver lambda withCtx should be Ctx, got: {result:?}"
    );
}

// Lambdas as named arguments

#[test]
fn named_arg_lambda_it_type_multiline() {
    let src = "\
data class SaveInfo(val id: String)
class SheetReloadActions(
  val buildingSavings: (SaveInfo) -> Unit,
  val cards: () -> Unit,
)
fun use() {
  SheetReloadActions(
    buildingSavings = { it },
    cards = {},
  )
}
";
    let u = uri("/t.kt");
    let deps = FixedDeps::new().with_fun(&u, "SheetReloadActions", &params(src, 1));
    let result = infer(&u, src, "it", at(7, 25), &deps);
    assert_eq!(
        result.as_deref(),
        Some("SaveInfo"),
        "it in named-arg lambda should be SaveInfo, got: {result:?}"
    );
}

#[test]
fn named_arg_lambda_multi_param_type() {
    let src = "\
class LoanInfo
class SheetReloadActions(
  val loan: (String, Boolean) -> Unit,
)
fun use() {
  SheetReloadActions(
    loan = { loanId, isWustenrot -> loanId },
  )
}
";
    let u = uri("/t.kt");
    let deps = FixedDeps::new().with_fun(&u, "SheetReloadActions", &params(src, 1));
    let first = infer(&u, src, "loanId", at(6, 22), &deps);
    assert_eq!(first.as_deref(), Some("String"), "loanId should be String, got: {first:?}");
    let second = infer(&u, src, "isWustenrot", at(6, 30), &deps);
    assert_eq!(
        second.as_deref(),
        Some("Boolean"),
        "isWustenrot should be Boolean, got: {second:?}"
    );
}

#[test]
fn named_arg_lambda_extension_function_callee() {
    let src = "\
class LoanDetail
class ProductDetailSheetModel
class Flow
fun Flow.lazyLoadProductBottomSheet(
  reloadAction: () -> Unit,
  map: ((LoanDetail) -> ProductDetailSheetModel),
) {}
fun use(flow: Flow) {
  flow.lazyLoadProductBottomSheet(
    reloadAction = { },
    map = { it },
  )
}
";
    let u = uri("/LoanReducer.kt");
    let deps = FixedDeps::new()
        .with_var(&u, "flow", "Flow")
        .with_fun(&u, "lazyLoadProductBottomSheet", &params(src, 3))
        .with_callable_info("lazyLoadProductBottomSheet", vec![], "Flow");
    let result = infer(&u, src, "it", at(10, 13), &deps);
    assert_eq!(
        result.as_deref(),
        Some("LoanDetail"),
        "it inside map lambda should be LoanDetail, got: {result:?}"
    );
}

#[test]
fn named_arg_reload_action_no_it() {
    let src = "\
class Flow
fun Flow.lazyLoadProductBottomSheet(
  reloadAction: () -> Unit,
) {}
fun use(flow: Flow) {
  flow.lazyLoadProductBottomSheet(
    reloadAction = { it },
  )
}
";
    let u = uri("/t.kt");
    let deps = FixedDeps::new()
        .with_var(&u, "flow", "Flow")
        .with_fun(&u, "lazyLoadProductBottomSheet", &params(src, 1))
        .with_callable_info("lazyLoadProductBottomSheet", vec![], "Flow");
    let result = infer(&u, src, "it", at(6, 21), &deps);
    assert_eq!(
        result, None,
        "it inside reloadAction lambda should not resolve (no params), got: {result:?}"
    );
}

#[test]
fn named_arg_lambda_double_paren_function_type() {
    let src = "\
class Item
fun process(
  mapper: ((Item) -> String),
) {}
fun use() {
  process(
    mapper = { it },
  )
}
";
    let u = uri("/t.kt");
    let deps = FixedDeps::new().with_fun(&u, "process", &params(src, 1));
    let result = infer(&u, src, "it", at(6, 16), &deps);
    assert_eq!(
        result.as_deref(),
        Some("Item"),
        "it inside double-paren type lambda should be Item, got: {result:?}"
    );
}

const LOAN_REDUCER: &str = "\
class LoanDetail
class ProductDetailSheetModel
class Flow
class BottomSheetState
fun <T> Flow.lazyLoadProductBottomSheet(
  state: BottomSheetState,
  reloadAction: () -> Unit,
  map: ((T) -> ProductDetailSheetModel),
): Flow {}
fun <T> Flow.collect(action: (T) -> Unit) {}
fun use(flow: Flow) {
  flow.lazyLoadProductBottomSheet(
    state = flow,
    reloadAction = { },
    map = { mapSheet(it) },
  ).collect { bottomSheetState ->
    use(bottomSheetState)
  }
}
";

fn loan_reducer_facts(u: &str) -> FixedDeps {
    FixedDeps::new()
        .with_var(u, "flow", "Flow")
        .with_fun(u, "lazyLoadProductBottomSheet", &params(LOAN_REDUCER, 4))
        .with_fun(u, "collect", &params(LOAN_REDUCER, 9))
        .with_fun(u, "use", &params(LOAN_REDUCER, 10))
        .with_return("lazyLoadProductBottomSheet", "Flow")
        .with_method_return_for_type("Flow", "lazyLoadProductBottomSheet", "Flow")
        .with_callable_info("lazyLoadProductBottomSheet", names(&["T"]), "Flow")
        .with_callable_info("collect", names(&["T"]), "Flow")
}

#[test]
fn loan_reducer_map_it_not_leaked_as_t() {
    let u = uri("/LoanReducer.kt");
    let result = infer(&u, LOAN_REDUCER, "it", at(14, 20), &loan_reducer_facts(&u));
    assert_ne!(
        result.as_deref(),
        Some("T"),
        "it in map lambda must not leak bare generic T, got: {result:?}"
    );
}

#[test]
fn loan_reducer_reload_action_no_it() {
    let u = uri("/LoanReducer.kt");
    let result = infer(&u, LOAN_REDUCER, "it", at(13, 21), &loan_reducer_facts(&u));
    assert_eq!(
        result, None,
        "it in reloadAction lambda should be None (no params), got: {result:?}"
    );
}

#[test]
fn loan_reducer_collect_bottomsheetstate_not_leaked_as_t() {
    let u = uri("/LoanReducer.kt");
    let result = infer(&u, LOAN_REDUCER, "bottomSheetState", at(16, 8), &loan_reducer_facts(&u));
    assert_ne!(
        result.as_deref(),
        Some("T"),
        "bottomSheetState in collect lambda must not leak bare generic T, got: {result:?}"
    );
}

#[test]
fn suspend_param_type_resolves_it() {
    let src = "\
class Flow
fun <T> Flow.collectIn(block: suspend (T) -> Unit) {}
fun use(flow: Flow) {
  flow.collectIn { it.doSomething() }
}
";
    let u = uri("/t.kt");
    let deps = FixedDeps::new()
        .with_var(&u, "flow", "Flow")
        .with_fun(&u, "collectIn", &params(src, 1))
        .with_callable_info("collectIn", names(&["T"]), "Flow");
    let result = infer(&u, src, "it", at(3, 19), &deps);
    assert_ne!(
        result.as_deref(),
        Some("T"),
        "it in suspend-param collectIn lambda must not leak bare generic T, got: {result:?}"
    );
}

#[test]
fn it_not_resolved_inside_multi_param_named_lambda() {
    let src = "\
class SheetReloadActions(
  val loan: (String, Boolean) -> Unit,
)
fun use() {
  SheetReloadActions(
    loan = { loanId, isWustenrot ->
      it
    }
  )
}
";
    let u = uri("/t.kt");
    let deps = FixedDeps::new().with_fun(&u, "SheetReloadActions", &params(src, 0));
    let result = infer(&u, src, "it", at(6, 6), &deps);
    assert!(result.is_none(), "it inside multi-param lambda should be None, got: {result:?}");
}

// Chains of fields and calls

#[test]
fn it_infer_result_field_firstornull() {
    let src = "\
data class MultibankingBank(val code: String, val name: String)
data class ConnectedAccountsResponse(
  val availableBanks: MutableList<MultibankingBank> = mutableListOf(),
)
fun getConnectedAccounts(isRefresh: Boolean): ConnectedAccountsResponse {}
fun use(isRefresh: Boolean) {
  val result = getConnectedAccounts(isRefresh)
  result.availableBanks.firstOrNull { it.code == \"X\" }
}
";
    let u = uri("/ConnectedAccounts.kt");
    let deps = FixedDeps::new()
        .with_var(&u, "result", "ConnectedAccountsResponse")
        .with_return("getConnectedAccounts", "ConnectedAccountsResponse")
        .with_field(
            "ConnectedAccountsResponse",
            "availableBanks",
            "MutableList<MultibankingBank>",
        );
    let result = infer(&u, src, "it", at(7, 38), &deps);
    assert_eq!(
        result.as_deref(),
        Some("MultibankingBank"),
        "it inside firstOrNull on a field of plain-fn result should be MultibankingBank, got: {result:?}"
    );
}

#[test]
fn it_infer_method_chain_firstornull() {
    let src = "\
data class Account(val accountId: String)
class AccountList
fun getAccountList(isRefresh: Boolean): AccountList {}
fun AccountList.joinAllAccounts(): List<Account> {}
fun use(isRefresh: Boolean, id: String) {
  var account = getAccountList(isRefresh).joinAllAccounts().firstOrNull { it.accountId == id }
}
";
    let u = uri("/AccountChain.kt");
    let deps = FixedDeps::new()
        .with_return("getAccountList", "AccountList")
        .with_return("joinAllAccounts", "List<Account>")
        .with_method_return_for_type("AccountList", "joinAllAccounts", "List<Account>");
    let result = infer(&u, src, "it", at(5, 74), &deps);
    assert_eq!(
        result.as_deref(),
        Some("Account"),
        "it inside method-chain firstOrNull should be Account, got: {result:?}"
    );
}

const FAMILY_VIEW_MODEL: &str = "\
package com.example
class FamilyAccount(val name: String)
class FamilyViewModel {
    private fun oneYearOlder(resultState: ResultState.Success<Optional<FamilyAccount>>) {
        resultState.value.getOrNull()?.also { familyAccount ->
            familyAccount.name
        }
    }
}
";

fn family_facts(u: &str) -> FixedDeps {
    FixedDeps::new()
        .with_var(u, "resultState", "ResultState.Success<Optional<FamilyAccount>>")
        .with_field("Success", "value", "T")
        .with_method_return_for_type("Optional", "getOrNull", "T")
        .with_class_params("Success", names(&["T"]))
        .with_class_params("Optional", names(&["T"]))
}

fn generic_class(name: &str, line: u32) -> SymbolEntry {
    let range = Range {
        start: at(line, 0),
        end: at(line, 1),
    };
    SymbolEntry {
        name: name.to_string(),
        kind: SymbolKind::Class,
        visibility: Visibility::Public,
        range,
        selection_range: range,
        detail: String::new(),
        container: None,
        params: String::new(),
        param_counts: (0, 0),
        type_params: names(&["T"]),
        extension_receiver: String::new(),
        extension_receiver_type: String::new(),
        doc: String::new(),
        trailing_lambda: false,
        deprecated: false,
        nullable: false,
    }
}

fn type_params_of(idx: &Indexer, name: &str) -> Vec<String> {
    let locs = idx.definitions.get(name).expect("a definition");
    let data = idx.files.get(&locs[0].uri).expect("its file");
    let sym = data.symbols.iter().find(|s| s.name == name).expect("its symbol");
    sym.type_params.clone()
}

#[test]
fn lambda_param_dotted_nested_class_chain() {
    let mut idx = Indexer::new();
    let result_state = "\
package com.example
sealed class ResultState<out T> {
    data class Success<out T>(val value: T) : ResultState<T>()
}
";
    let data = FileData {
        lines: lines_of(result_state),
        package: Some("com.example".to_string()),
        symbols: vec![generic_class("ResultState", 1), generic_class("Success", 2)],
        ..FileData::default()
    };
    idx.index_content(&uri("/ResultState.kt"), result_state, data, None);
    let optional = "\
package com.example
class Optional<out T>(private val value: T?) {
    fun getOrNull(): T? = value
}
";
    let data = FileData {
        lines: lines_of(optional),
        package: Some("com.example".to_string()),
        symbols: vec![generic_class("Optional", 1)],
        ..FileData::default()
    };
    idx.index_content(&uri("/Optional.kt"), optional, data, None);
    assert_eq!(type_params_of(&idx, "Success"), vec!["T"]);
    assert_eq!(type_params_of(&idx, "Optional"), vec!["T"]);

    let u = uri("/FamilyViewModel.kt");
    let col = "            ".len() as u32;
    let result = infer(&u, FAMILY_VIEW_MODEL, "familyAccount", at(5, col), &family_facts(&u));
    assert_eq!(
        result.as_deref(),
        Some("FamilyAccount"),
        "lambda param in dotted nested class chain should resolve to FamilyAccount, got: {result:?}"
    );
}

/// The facts with those of the scope functions as the standard library declares them.
fn with_scope_functions(deps: FixedDeps, u: &str) -> FixedDeps {
    deps.with_fun(u, "also", "block: (T) -> Unit")
        .with_callable_info("also", names(&["T"]), "T")
        .with_fun(u, "let", "block: (T) -> R")
        .with_callable_info("let", names(&["T", "R"]), "T")
        .with_fun(u, "run", "block: T.() -> R")
        .with_callable_info("run", names(&["T", "R"]), "T")
}

#[test]
fn lambda_param_dotted_nested_class_chain_with_stdlib() {
    let u = uri("/FamilyViewModel.kt");
    let deps = with_scope_functions(family_facts(&u), &u)
        .with_fun(&u, "getOrNull", "index: Int")
        .with_callable_info("getOrNull", names(&["T"]), "List<T>");
    let col = "            ".len() as u32;
    let result = infer(&u, FAMILY_VIEW_MODEL, "familyAccount", at(5, col), &deps);
    assert_eq!(
        result.as_deref(),
        Some("FamilyAccount"),
        "with stdlib indexed, lambda param should still resolve to FamilyAccount, got: {result:?}"
    );
}

#[test]
fn inline_lambda_first_arg_not_trailing() {
    let src = "\
class DepositAccountResult
class SheetState
class DepositAccountReducer {
  class Factory {
    fun create(
      deposit: String,
      mapper1: (DepositAccountResult) -> SheetState,
      mapper2: (DepositAccountResult) -> SheetState,
      mapper3: (DepositAccountResult) -> SheetState
    ): DepositAccountReducer = TODO()
  }
}
class Vm {
  private val factory = DepositAccountReducer.Factory()
  private val reducer by lazy {
    factory.create(\"dep\", {
      it.toString()
    }, {
      it.toString()
    }, {
      it.toString()
    })
  }
}
";
    let u = uri("/Vm.kt");
    let deps = FixedDeps::new()
        .with_var(&u, "factory", "DepositAccountReducer.Factory")
        .with_fun(&u, "create", &params(src, 4));
    let r1 = infer(&u, src, "it", at(16, 6), &deps);
    assert_eq!(
        r1.as_deref(),
        Some("DepositAccountResult"),
        "first inline lambda it should be DepositAccountResult, got: {r1:?}"
    );
}

#[test]
fn inline_lambda_receiver_aware_disambiguates_create() {
    let src = "\
class DepositAccountResult
class OtherResult
class OtherFactory {
  fun create(mapper: (OtherResult) -> String): String = TODO()
}
class DepositAccountReducer {
  class Factory {
    fun create(
      deposit: String,
      mapper: (DepositAccountResult) -> String
    ): DepositAccountReducer = TODO()
  }
}
class Vm {
  private val factory = DepositAccountReducer.Factory()
  private val reducer by lazy {
    factory.create(\"dep\", {
      it.toString()
    })
  }
}
";
    let u = uri("/Vm.kt");
    let deps = FixedDeps::new()
        .with_var(&u, "factory", "Factory")
        .with_fun(&u, "create", &params(src, 3))
        .with_method_params("OtherFactory", "create", &params(src, 3))
        .with_method_params("Factory", "create", &params(src, 7));
    let r = infer(&u, src, "it", at(17, 6), &deps);
    assert_eq!(
        r.as_deref(),
        Some("DepositAccountResult"),
        "receiver-aware lookup should pick Factory.create, not OtherFactory.create: {r:?}"
    );
}

fn account_facts(u: &str) -> FixedDeps {
    FixedDeps::new()
        .with_var(u, "accountId", "String")
        .with_var(u, "account", "Account")
        .with_field("RegularAccount", "account", "Account")
        .with_field("Account", "accountId", "String")
}

#[test]
fn inline_lambda_also_on_chain_resolves_it() {
    let src = "\
class Account { val accountId: String = \"\" }
class RegularAccount { val account: Account = Account() }
class Vm {
  fun run(items: List<RegularAccount>) {
    items.firstOrNull()?.account?.accountId?.also {
      println(it)
    }
  }
}
";
    let u = uri("/Vm.kt");
    let deps = account_facts(&u).with_var(&u, "items", "List<RegularAccount>");
    let r = infer(&u, src, "it", at(5, 14), &deps);
    assert_eq!(
        r.as_deref(),
        Some("String"),
        "it inside .also on ?.accountId chain should be String: {r:?}"
    );
}

#[test]
fn inline_lambda_also_nested_in_outer_lambda() {
    let src = "\
class Account { val accountId: String = \"\" }
class RegularAccount { val account: Account = Account() }
class Flow<T> {
  fun collect(action: (T) -> Unit) {}
}
class Vm {
  fun run(flow: Flow<List<RegularAccount>>) {
    flow.collect {
      it.firstOrNull()?.account?.accountId?.also {
        println(it)
      }
    }
  }
}
";
    let u = uri("/Vm.kt");
    let deps = account_facts(&u)
        .with_var(&u, "flow", "Flow<List<RegularAccount>>")
        .with_fun(&u, "collect", &params(src, 3))
        .with_class_params("Flow", names(&["T"]));
    let r = infer(&u, src, "it", at(9, 16), &deps);
    assert_eq!(
        r.as_deref(),
        Some("String"),
        "inner it inside .also nested in collect lambda should be String: {r:?}"
    );
}

#[test]
fn cst_named_lambda_param_scope_fun_substitutes_receiver() {
    let src = "\
class SalesPointId(val value: String)
class Foo {
    val salesPointId: SalesPointId? = null
    fun test() {
        salesPointId?.let { spId ->
            spId.value
        }
    }
}
";
    let u = uri("/Foo.kt");
    let facts = FixedDeps::new().with_var(&u, "salesPointId", "SalesPointId");
    let deps = with_scope_functions(facts, &u);
    let col = "            ".len() as u32;
    let result = infer(&u, src, "spId", at(5, col), &deps);
    assert_eq!(
        result.as_deref(),
        Some("SalesPointId"),
        "CST path should substitute T with receiver type for .let, got: {result:?}"
    );
}

#[test]
fn nullable_let_chain_it_type_resolves() {
    let src = "\
class IFamilySettings { var familyCreationDate: Long? = null }
fun currentTimeMillis(): Long = 0L
fun toMillis(days: Int): Long = 0L
fun test(settings: IFamilySettings) {
  val result = settings.familyCreationDate
    ?.let {
      if (it == 0L) currentTimeMillis().also {
        settings.familyCreationDate = it
      } else it
    }
    ?.let { currentTimeMillis() - it }
    ?.let { it > toMillis(2) } ?: false
}
";
    let u = uri("/chain.kt");
    let deps = FixedDeps::new()
        .with_var(&u, "settings", "IFamilySettings")
        .with_field("IFamilySettings", "familyCreationDate", "Long")
        .with_return("currentTimeMillis", "Long")
        .with_return("toMillis", "Long");
    let r6 = infer(&u, src, "it", at(6, 10), &deps);
    assert_eq!(r6.as_deref(), Some("Long"), "it in first ?.let lambda should be Long: {r6:?}");
    let r10 = infer(&u, src, "it", at(10, 37), &deps);
    assert_eq!(r10.as_deref(), Some("Long"), "it in second ?.let lambda should be Long: {r10:?}");
    let r11 = infer(&u, src, "it", at(11, 12), &deps);
    assert_eq!(r11.as_deref(), Some("Long"), "it in third ?.let lambda should be Long: {r11:?}");
}

#[test]
fn function_call_dot_let_named_param_resolves() {
    let src = "\
class Child { val ownerAge: Int = 0 }
fun <T, R> T.let(block: (T) -> R): R = block(this)
class ShowChildNewTipsInteractor {
  fun childCategory(child: Child): Int = 0
  fun test(child: Child) {
    childCategory(child)
      .let { categoryAge ->
        categoryAge + 1
      }
  }
}
";
    let u = uri("/fn_call_let.kt");
    let deps = FixedDeps::new()
        .with_var(&u, "child", "Child")
        .with_return("childCategory", "Int")
        .with_fun(&u, "childCategory", &params(src, 3))
        .with_fun(&u, "let", &params(src, 1))
        .with_callable_info("let", names(&["T", "R"]), "T");
    let r = infer(&u, src, "categoryAge", at(7, 8), &deps);
    assert_eq!(
        r.as_deref(),
        Some("Int"),
        "categoryAge in .let after member function call should be Int: {r:?}"
    );
}

#[test]
fn lines_that_lag_behind_the_tree() {
    let src = "val users: List<User> = all()\nusers.forEach {\n  it\n}";
    let u = uri("/t.kt");
    let deps = FixedDeps::new().with_var(&u, "users", "List<User>");
    let doc = parse_live(src, Language::Kotlin).unwrap();
    let pos = CursorPos { line: 2, utf16_col: 2 };
    let cursor = cursor_node_at(Some(&doc), pos);
    for kept in 0..5 {
        let lines: Vec<String> = src.lines().take(kept).map(String::from).collect();
        let it = find_it_element_type_in_lines(&lines, pos, cursor.as_ref(), &deps, &u);
        assert_eq!(it.as_deref(), Some("User"), "{kept} lines");
    }
}
