//! The texts of parse errors, each as a spec function over the values it
//! names, with the code that builds it.

use vstd::prelude::*;

use crate::category::{module_name, module_sub_categories, sub_category_name, Module, SubCategory};
use crate::text::{decimal, decimal_string, push_char, push_chars, push_str};

verus! {

/// `a`, then the characters `x`, then `b`.
pub open spec fn around(a: Seq<char>, x: Seq<char>, b: Seq<char>) -> Seq<char> {
    a + x + b
}

/// A `String` spelling `s`.
pub fn owned(s: &str) -> (r: String)
    ensures
        r@ == s@,
{
    let mut r = String::new();
    push_str(&mut r, s);
    assert(r@ =~= s@);
    r
}

/// A `String` spelling `a`, then `x`, then `b`.
pub fn around_chars(a: &str, x: &Vec<char>, b: &str) -> (r: String)
    ensures
        r@ == around(a@, x@, b@),
{
    let mut r = String::new();
    push_str(&mut r, a);
    push_chars(&mut r, x, 0, x.len());
    push_str(&mut r, b);
    assert(x@.subrange(0, x@.len() as int) =~= x@);
    assert(r@ =~= around(a@, x@, b@));
    r
}

/// A `String` spelling `a`, then `x`, then `b`.
pub fn around_str(a: &str, x: &str, b: &str) -> (r: String)
    ensures
        r@ == around(a@, x@, b@),
{
    let mut r = String::new();
    push_str(&mut r, a);
    push_str(&mut r, x);
    push_str(&mut r, b);
    assert(r@ =~= around(a@, x@, b@));
    r
}

/// A `String` spelling `a`, then the character `c`, then `b`.
pub fn around_char(a: &str, c: char, b: &str) -> (r: String)
    ensures
        r@ == around(a@, seq![c], b@),
{
    let mut r = String::new();
    push_str(&mut r, a);
    push_char(&mut r, c);
    push_str(&mut r, b);
    assert(r@ =~= around(a@, seq![c], b@));
    r
}

/// Indentation with a character that is not a space.
pub open spec fn msg_tab() -> Seq<char> {
    "缩进只能用空格，不能用 TAB"@
}

/// Indentation that is not a whole number of levels.
pub open spec fn msg_odd_indent(n: nat) -> Seq<char> {
    "缩进必须是 2 个空格的倍数（当前 "@ + decimal(n) + " 个空格）"@
}

pub fn odd_indent_message(n: usize) -> (r: String)
    ensures
        r@ == msg_odd_indent(n as nat),
{
    let d = decimal_string(n);
    around_str("缩进必须是 2 个空格的倍数（当前 ", d.as_str(), " 个空格）")
}

/// A structural line at the wrong indentation.
pub open spec fn msg_wrong_indent(k: Seq<char>, expected: nat, actual: nat) -> Seq<char> {
    "「@"@ + k + "」的缩进应为 "@ + decimal(expected) + " 个空格（当前 "@ + decimal(actual)
        + "）"@
}

pub fn wrong_indent_message(k: &Vec<char>, expected: usize, actual: usize) -> (r: String)
    ensures
        r@ == msg_wrong_indent(k@, expected as nat, actual as nat),
{
    let mut r = around_chars("「@", k, "」的缩进应为 ");
    let e = decimal_string(expected);
    push_str(&mut r, e.as_str());
    push_str(&mut r, " 个空格（当前 ");
    let a = decimal_string(actual);
    push_str(&mut r, a.as_str());
    push_str(&mut r, "）");
    r
}

/// A content line deeper than one level below its keyword.
pub open spec fn msg_content_deeper(k: Seq<char>, n: nat) -> Seq<char> {
    "内容行必须比「@"@ + k + "」深一级（缩进 "@ + decimal(n) + " 个空格）"@
}

pub fn content_deeper_message(k: &str, n: usize) -> (r: String)
    ensures
        r@ == msg_content_deeper(k@, n as nat),
{
    let mut r = around_str("内容行必须比「@", k, "」深一级（缩进 ");
    let d = decimal_string(n);
    push_str(&mut r, d.as_str());
    push_str(&mut r, " 个空格）");
    r
}

/// A sub-category of another module.
pub open spec fn msg_sub_other_module(name: Seq<char>, owner: Module, here: Module) -> Seq<
    char,
> {
    "子分类「"@ + name + "」属于「"@ + module_name(owner) + "」，不能写在「"@ + module_name(here)
        + "」分节里"@
}

pub fn sub_other_module_message(name: &Vec<char>, owner: Module, here: Module) -> (r: String)
    ensures
        r@ == msg_sub_other_module(name@, owner, here),
{
    let mut r = around_chars("子分类「", name, "」属于「");
    push_str(&mut r, owner.name());
    push_str(&mut r, "」，不能写在「");
    push_str(&mut r, here.name());
    push_str(&mut r, "」分节里");
    r
}

/// A sub-category declared in a module that has none.
pub open spec fn msg_module_without_subs(here: Module, name: Seq<char>) -> Seq<char> {
    "「"@ + module_name(here) + "」没有子分类，不能声明「"@ + name + "」"@
}

pub fn module_without_subs_message(here: Module, name: &Vec<char>) -> (r: String)
    ensures
        r@ == msg_module_without_subs(here, name@),
{
    let mut r = owned("「");
    push_str(&mut r, here.name());
    push_str(&mut r, "」没有子分类，不能声明「");
    push_chars(&mut r, name, 0, name.len());
    push_str(&mut r, "」");
    assert(name@.subrange(0, name@.len() as int) =~= name@);
    r
}

/// The official sub-category names of `subs`, joined by `、`.
pub open spec fn joined_names(subs: Seq<SubCategory>) -> Seq<char>
    decreases subs.len(),
{
    if subs.len() == 0 {
        seq![]
    } else if subs.len() == 1 {
        sub_category_name(subs[0])
    } else {
        joined_names(subs.drop_last()) + "、"@ + sub_category_name(subs.last())
    }
}

/// An unknown sub-category name, with the module's official list.
pub open spec fn msg_unknown_sub(here: Module, name: Seq<char>) -> Seq<char> {
    "「"@ + module_name(here) + "」没有子分类「"@ + name + "」；官方子分类为："@ + joined_names(
        module_sub_categories(here),
    )
}

pub fn unknown_sub_message(here: Module, name: &Vec<char>) -> (r: String)
    ensures
        r@ == msg_unknown_sub(here, name@),
{
    let mut r = owned("「");
    push_str(&mut r, here.name());
    push_str(&mut r, "」没有子分类「");
    push_chars(&mut r, name, 0, name.len());
    push_str(&mut r, "」；官方子分类为：");
    assert(name@.subrange(0, name@.len() as int) =~= name@);
    let ghost prefix = r@;
    let subs = here.sub_categories();
    let mut i: usize = 0;
    while i < subs.len()
        invariant
            0 <= i <= subs.len(),
            subs@ == module_sub_categories(here),
            r@ == prefix + joined_names(subs@.take(i as int)),
        decreases subs.len() - i,
    {
        if i > 0 {
            push_str(&mut r, "、");
        }
        push_str(&mut r, subs[i].name());
        proof {
            let t = subs@.take(i + 1);
            assert(t.drop_last() =~= subs@.take(i as int));
            if i == 0 {
                assert(subs@.take(0) =~= Seq::<SubCategory>::empty());
            }
        }
        i = i + 1;
    }
    assert(subs@.take(subs@.len() as int) =~= subs@);
    r
}

/// An unknown module name, with the official list.
pub open spec fn msg_unknown_module(name: Seq<char>) -> Seq<char> {
    "未知模块「"@ + name + "」；官方模块为：言语理解与表达、判断推理、数量关系、资料分析"@
}

/// A section without any question.
pub open spec fn msg_section_empty(m: Module) -> Seq<char> {
    "模块分节「"@ + module_name(m) + "」不含题目"@
}

pub fn section_empty_message(m: Module) -> (r: String)
    ensures
        r@ == msg_section_empty(m),
{
    around_str("模块分节「", m.name(), "」不含题目")
}

/// A letter as a one-character sequence.
pub open spec fn one(c: char) -> Seq<char> {
    seq![c]
}

/// An option that is missing where `expected` belongs.
pub open spec fn msg_missing_option(expected: char) -> Seq<char> {
    "题目缺少选项 "@ + one(expected)
}

pub fn missing_option_message(expected: char) -> (r: String)
    ensures
        r@ == msg_missing_option(expected),
{
    let r = around_char("题目缺少选项 ", expected, "");
    proof {
        reveal_strlit("");
    }
    assert(r@ =~= msg_missing_option(expected));
    r
}

/// An option letter out of order.
pub open spec fn msg_option_order(expected: char, letter: Seq<char>) -> Seq<char> {
    "期望选项 "@ + one(expected) + "，实际为 "@ + letter + "；选项必须按 A、B、C、D 顺序各出现一次"@
}

pub fn option_order_message(expected: char, letter: &Vec<char>) -> (r: String)
    ensures
        r@ == msg_option_order(expected, letter@),
{
    let mut r = around_char("期望选项 ", expected, "，实际为 ");
    push_chars(&mut r, letter, 0, letter.len());
    push_str(&mut r, "；选项必须按 A、B、C、D 顺序各出现一次");
    assert(letter@.subrange(0, letter@.len() as int) =~= letter@);
    r
}

/// An option with no content.
pub open spec fn msg_option_empty(expected: char) -> Seq<char> {
    "选项 "@ + one(expected) + " 的内容为空"@
}

/// A field where `@option {expected}` belongs.
pub open spec fn msg_expected_option(expected: char, k: Seq<char>) -> Seq<char> {
    "此处应为「@option "@ + one(expected) + "」，实际是「@"@ + k + "」"@
}

pub fn expected_option_message(expected: char, k: &Vec<char>) -> (r: String)
    ensures
        r@ == msg_expected_option(expected, k@),
{
    let mut r = around_char("此处应为「@option ", expected, "」，实际是「@");
    push_chars(&mut r, k, 0, k.len());
    push_str(&mut r, "」");
    assert(k@.subrange(0, k@.len() as int) =~= k@);
    r
}

} // verus!

verus! {

/// An inline element name without its opening brace.
pub open spec fn msg_needs_brace(name: Seq<char>) -> Seq<char> {
    around("「@"@, name, "」后面要紧跟「{」"@)
}

/// An inline element whose braces do not close on its line.
pub open spec fn msg_unclosed(name: Seq<char>) -> Seq<char> {
    around("「@"@, name, "{」缺少配对的「}」；行内元素不能跨行"@)
}

/// An empty inline formula.
pub open spec fn msg_math_empty() -> Seq<char> {
    "「@math{}」的公式为空"@
}

/// An image without a path.
pub open spec fn msg_image_empty() -> Seq<char> {
    "「@image{}」缺少图片路径"@
}

/// A blank written with a value.
pub open spec fn msg_blank_value() -> Seq<char> {
    "「@blank」不带取值，直接写「@blank」即可"@
}

/// An unknown inline element.
pub open spec fn msg_unknown_inline(name: Seq<char>) -> Seq<char> {
    around("未知的行内元素「@"@, name, "」；可用的有 @math{…}、@image{…} 与 @blank"@)
}

} // verus!

verus! {

pub open spec fn msg_empty_document() -> Seq<char> {
    "文档为空"@
}

pub open spec fn msg_no_sections() -> Seq<char> {
    "文档不含任何模块分节"@
}

pub open spec fn msg_metadata_without_value(k: Seq<char>) -> Seq<char> {
    around("「@"@, k, "」缺少取值"@)
}

pub open spec fn msg_metadata_repeated(k: Seq<char>) -> Seq<char> {
    around("元数据「@"@, k, "」重复"@)
}

pub open spec fn msg_unrecognized_line() -> Seq<char> {
    "无法识别的行：结构行必须以 @ 开头，且顶格书写"@
}

pub open spec fn msg_module_without_name() -> Seq<char> {
    "模块分节缺少模块名"@
}

pub open spec fn msg_outside_section(k: Seq<char>) -> Seq<char> {
    around("「@"@, k, "」必须位于模块分节之内，且缩进 2 个空格"@)
}

pub open spec fn msg_metadata_late() -> Seq<char> {
    "元数据必须写在文档开头"@
}

pub open spec fn msg_only_in_question(k: Seq<char>) -> Seq<char> {
    around("「@"@, k, "」只能出现在题目块内，且缩进 4 个空格"@)
}

pub open spec fn msg_unknown_keyword(k: Seq<char>) -> Seq<char> {
    around("未知关键字「@"@, k, "」"@)
}

pub open spec fn msg_sub_after_question() -> Seq<char> {
    "子分类必须用「@subcategory」写在题目之前"@
}

pub open spec fn msg_sub_repeated() -> Seq<char> {
    "「@subcategory」重复"@
}

pub open spec fn msg_sub_without_name() -> Seq<char> {
    "「@subcategory」缺少子分类名"@
}

pub open spec fn msg_question_value() -> Seq<char> {
    "「@question」不接受取值"@
}

pub open spec fn msg_material_value() -> Seq<char> {
    "「@material」不接受取值"@
}

pub open spec fn msg_material_empty() -> Seq<char> {
    "材料内容为空"@
}

pub open spec fn msg_material_without_questions() -> Seq<char> {
    "材料之后至少要有一道题目"@
}

pub open spec fn msg_no_stem() -> Seq<char> {
    "题目缺少题干"@
}

pub open spec fn msg_expected_stem(k: Seq<char>) -> Seq<char> {
    around("此处应为「@stem」，实际是「@"@, k, "」"@)
}

pub open spec fn msg_option_letter(letter: Seq<char>) -> Seq<char> {
    around("选项字母必须是 A、B、C、D 之一（当前「"@, letter, "」）"@)
}

pub open spec fn msg_answer_before_options() -> Seq<char> {
    "答案必须位于选项之后"@
}

pub open spec fn msg_explanation_before_answer() -> Seq<char> {
    "解析必须位于答案之后"@
}

pub open spec fn msg_no_answer() -> Seq<char> {
    "题目缺少答案"@
}

pub open spec fn msg_answer_letter(v: Seq<char>) -> Seq<char> {
    around("答案必须是 A、B、C、D 之一（当前「"@, v, "」）"@)
}

pub open spec fn msg_expected_answer(k: Seq<char>) -> Seq<char> {
    around("此处应为「@answer」，实际是「@"@, k, "」"@)
}

pub open spec fn msg_explanation_empty() -> Seq<char> {
    "解析内容为空"@
}

pub open spec fn msg_repeated_answer() -> Seq<char> {
    "题目中出现了多个答案"@
}

pub open spec fn msg_after_explanation(k: Seq<char>) -> Seq<char> {
    around("这里不能出现「@"@, k, "」；题目块以「@explanation」收尾"@)
}

pub open spec fn msg_keyword_in_content(k: Seq<char>) -> Seq<char> {
    around("「@"@, k, "」不能出现在内容行里"@)
}

pub open spec fn msg_misplaced_content() -> Seq<char> {
    "内容行必须写在关键字之下，并比它的关键字深一级"@
}

} // verus!

verus! {

/// The letter of the `n`-th option (A, B, C, D).
pub open spec fn option_letter(n: nat) -> char {
    if n == 0 {
        'A'
    } else if n == 1 {
        'B'
    } else if n == 2 {
        'C'
    } else {
        'D'
    }
}

} // verus!
