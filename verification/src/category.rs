//! The fixed two-level official classification: modules and sub-categories.
//!
//! Both are closed enumerations: four modules and nine official sub-categories,
//! no custom categories. Unknown names, and a sub-category that does not belong
//! to its module, are rejected by the parser.

use vstd::prelude::*;

use crate::text::chars_are;

verus! {

/// A module: one of the four fixed top-level categories.
#[derive(Debug, Clone, Copy, PartialEq, Eq, Structural)]
pub enum Module {
    /// 言语理解与表达.
    VerbalComprehension,
    /// 判断推理.
    JudgmentReasoning,
    /// 数量关系.
    QuantitativeRelations,
    /// 资料分析.
    DataAnalysis,
}

/// A sub-category: an official second-level category, each within one module.
#[derive(Debug, Clone, Copy, PartialEq, Eq, Structural)]
pub enum SubCategory {
    /// 言语理解与表达 · 逻辑填空.
    LogicalFill,
    /// 言语理解与表达 · 片段阅读.
    PassageReading,
    /// 言语理解与表达 · 语句表达.
    SentenceExpression,
    /// 判断推理 · 图形推理.
    FigureReasoning,
    /// 判断推理 · 定义判断.
    DefinitionJudgment,
    /// 判断推理 · 类比推理.
    AnalogyReasoning,
    /// 判断推理 · 逻辑判断.
    LogicalJudgment,
    /// 数量关系 · 数学运算.
    MathOperation,
    /// 数量关系 · 数字推理.
    NumberReasoning,
}

/// The four modules in paper order.
pub open spec fn all_modules() -> Seq<Module> {
    seq![
        Module::VerbalComprehension,
        Module::JudgmentReasoning,
        Module::QuantitativeRelations,
        Module::DataAnalysis,
    ]
}

/// The official name of a module.
pub open spec fn module_name(m: Module) -> Seq<char> {
    match m {
        Module::VerbalComprehension => "言语理解与表达"@,
        Module::JudgmentReasoning => "判断推理"@,
        Module::QuantitativeRelations => "数量关系"@,
        Module::DataAnalysis => "资料分析"@,
    }
}

/// The official sub-categories of a module, in official order.
pub open spec fn module_sub_categories(m: Module) -> Seq<SubCategory> {
    match m {
        Module::VerbalComprehension => seq![
            SubCategory::LogicalFill,
            SubCategory::PassageReading,
            SubCategory::SentenceExpression,
        ],
        Module::JudgmentReasoning => seq![
            SubCategory::FigureReasoning,
            SubCategory::DefinitionJudgment,
            SubCategory::AnalogyReasoning,
            SubCategory::LogicalJudgment,
        ],
        Module::QuantitativeRelations => seq![
            SubCategory::MathOperation,
            SubCategory::NumberReasoning,
        ],
        Module::DataAnalysis => seq![],
    }
}

/// All nine official sub-categories, module by module.
pub open spec fn all_sub_categories() -> Seq<SubCategory> {
    module_sub_categories(Module::VerbalComprehension) + module_sub_categories(
        Module::JudgmentReasoning,
    ) + module_sub_categories(Module::QuantitativeRelations) + module_sub_categories(
        Module::DataAnalysis,
    )
}

/// The official name of a sub-category.
pub open spec fn sub_category_name(s: SubCategory) -> Seq<char> {
    match s {
        SubCategory::LogicalFill => "逻辑填空"@,
        SubCategory::PassageReading => "片段阅读"@,
        SubCategory::SentenceExpression => "语句表达"@,
        SubCategory::FigureReasoning => "图形推理"@,
        SubCategory::DefinitionJudgment => "定义判断"@,
        SubCategory::AnalogyReasoning => "类比推理"@,
        SubCategory::LogicalJudgment => "逻辑判断"@,
        SubCategory::MathOperation => "数学运算"@,
        SubCategory::NumberReasoning => "数字推理"@,
    }
}

/// The module a sub-category belongs to.
pub open spec fn sub_category_module(s: SubCategory) -> Module {
    match s {
        SubCategory::LogicalFill | SubCategory::PassageReading
        | SubCategory::SentenceExpression => Module::VerbalComprehension,
        SubCategory::FigureReasoning | SubCategory::DefinitionJudgment
        | SubCategory::AnalogyReasoning | SubCategory::LogicalJudgment => Module::JudgmentReasoning,
        SubCategory::MathOperation | SubCategory::NumberReasoning => Module::QuantitativeRelations,
    }
}

/// The first module, in paper order, whose official name is `name`.
pub open spec fn module_named(name: Seq<char>) -> Option<Module> {
    first_module_named(all_modules(), name)
}

/// The first module of `ms` whose official name is `name`.
pub open spec fn first_module_named(ms: Seq<Module>, name: Seq<char>) -> Option<Module>
    decreases ms.len(),
{
    if ms.len() == 0 {
        None
    } else if module_name(ms[0]) == name {
        Some(ms[0])
    } else {
        first_module_named(ms.drop_first(), name)
    }
}

/// The first sub-category, in official order, whose official name is `name`.
pub open spec fn sub_category_named(name: Seq<char>) -> Option<SubCategory> {
    first_sub_category_named(all_sub_categories(), name)
}

/// The first sub-category of `ss` whose official name is `name`.
pub open spec fn first_sub_category_named(ss: Seq<SubCategory>, name: Seq<char>) -> Option<
    SubCategory,
>
    decreases ss.len(),
{
    if ss.len() == 0 {
        None
    } else if sub_category_name(ss[0]) == name {
        Some(ss[0])
    } else {
        first_sub_category_named(ss.drop_first(), name)
    }
}

/// The sub-categories of 言语理解与表达.
const VERBAL_SUB_CATEGORIES: [SubCategory; 3] = [
    SubCategory::LogicalFill,
    SubCategory::PassageReading,
    SubCategory::SentenceExpression,
];

/// The sub-categories of 判断推理.
const JUDGMENT_SUB_CATEGORIES: [SubCategory; 4] = [
    SubCategory::FigureReasoning,
    SubCategory::DefinitionJudgment,
    SubCategory::AnalogyReasoning,
    SubCategory::LogicalJudgment,
];

/// The sub-categories of 数量关系.
const QUANTITATIVE_SUB_CATEGORIES: [SubCategory; 2] = [
    SubCategory::MathOperation,
    SubCategory::NumberReasoning,
];

impl Module {
    /// The four modules, in paper order.
    pub const ALL: [Module; 4] = [
        Module::VerbalComprehension,
        Module::JudgmentReasoning,
        Module::QuantitativeRelations,
        Module::DataAnalysis,
    ];

    /// The official name of the module.
    pub fn name(self) -> (r: &'static str)
        ensures
            r@ == module_name(self),
    {
        match self {
            Module::VerbalComprehension => "言语理解与表达",
            Module::JudgmentReasoning => "判断推理",
            Module::QuantitativeRelations => "数量关系",
            Module::DataAnalysis => "资料分析",
        }
    }

    /// The module whose official name is `name`; `None` when `name` is not an
    /// official module name.
    pub fn from_name(name: &str) -> (r: Option<Module>)
        ensures
            r == module_named(name@),
    {
        proof {
            reveal_with_fuel(first_module_named, 5);
        }
        let v = crate::text::chars_of(name);
        if chars_are(&v, "言语理解与表达") {
            Some(Module::VerbalComprehension)
        } else if chars_are(&v, "判断推理") {
            Some(Module::JudgmentReasoning)
        } else if chars_are(&v, "数量关系") {
            Some(Module::QuantitativeRelations)
        } else if chars_are(&v, "资料分析") {
            Some(Module::DataAnalysis)
        } else {
            None
        }
    }

    /// The official sub-categories of the module; 资料分析 has none.
    pub fn sub_categories(self) -> (r: &'static [SubCategory])
        ensures
            r@ == module_sub_categories(self),
    {
        match self {
            Module::VerbalComprehension => {
                let r: &'static [SubCategory] = &VERBAL_SUB_CATEGORIES;
                assert(r@ =~= module_sub_categories(self));
                r
            },
            Module::JudgmentReasoning => {
                let r: &'static [SubCategory] = &JUDGMENT_SUB_CATEGORIES;
                assert(r@ =~= module_sub_categories(self));
                r
            },
            Module::QuantitativeRelations => {
                let r: &'static [SubCategory] = &QUANTITATIVE_SUB_CATEGORIES;
                assert(r@ =~= module_sub_categories(self));
                r
            },
            Module::DataAnalysis => {
                let r: &'static [SubCategory] = &[];
                assert(r@ =~= module_sub_categories(self));
                r
            },
        }
    }
}

impl SubCategory {
    /// The official name of the sub-category.
    pub fn name(self) -> (r: &'static str)
        ensures
            r@ == sub_category_name(self),
    {
        match self {
            SubCategory::LogicalFill => "逻辑填空",
            SubCategory::PassageReading => "片段阅读",
            SubCategory::SentenceExpression => "语句表达",
            SubCategory::FigureReasoning => "图形推理",
            SubCategory::DefinitionJudgment => "定义判断",
            SubCategory::AnalogyReasoning => "类比推理",
            SubCategory::LogicalJudgment => "逻辑判断",
            SubCategory::MathOperation => "数学运算",
            SubCategory::NumberReasoning => "数字推理",
        }
    }

    /// The sub-category whose official name is `name`; `None` when `name` is
    /// not an official sub-category name.
    pub fn from_name(name: &str) -> (r: Option<SubCategory>)
        ensures
            r == sub_category_named(name@),
    {
        proof {
            reveal_with_fuel(first_sub_category_named, 10);
            assert(all_sub_categories() =~= seq![
                SubCategory::LogicalFill,
                SubCategory::PassageReading,
                SubCategory::SentenceExpression,
                SubCategory::FigureReasoning,
                SubCategory::DefinitionJudgment,
                SubCategory::AnalogyReasoning,
                SubCategory::LogicalJudgment,
                SubCategory::MathOperation,
                SubCategory::NumberReasoning,
            ]);
        }
        let v = crate::text::chars_of(name);
        if chars_are(&v, "逻辑填空") {
            Some(SubCategory::LogicalFill)
        } else if chars_are(&v, "片段阅读") {
            Some(SubCategory::PassageReading)
        } else if chars_are(&v, "语句表达") {
            Some(SubCategory::SentenceExpression)
        } else if chars_are(&v, "图形推理") {
            Some(SubCategory::FigureReasoning)
        } else if chars_are(&v, "定义判断") {
            Some(SubCategory::DefinitionJudgment)
        } else if chars_are(&v, "类比推理") {
            Some(SubCategory::AnalogyReasoning)
        } else if chars_are(&v, "逻辑判断") {
            Some(SubCategory::LogicalJudgment)
        } else if chars_are(&v, "数学运算") {
            Some(SubCategory::MathOperation)
        } else if chars_are(&v, "数字推理") {
            Some(SubCategory::NumberReasoning)
        } else {
            None
        }
    }

    /// The module the sub-category belongs to.
    pub fn module(self) -> (r: Module)
        ensures
            r == sub_category_module(self),
    {
        match self {
            SubCategory::LogicalFill | SubCategory::PassageReading
            | SubCategory::SentenceExpression => Module::VerbalComprehension,
            SubCategory::FigureReasoning | SubCategory::DefinitionJudgment
            | SubCategory::AnalogyReasoning
            | SubCategory::LogicalJudgment => Module::JudgmentReasoning,
            SubCategory::MathOperation | SubCategory::NumberReasoning => {
                Module::QuantitativeRelations
            },
        }
    }
}

/// Looking a module up by its official name gives the module back.
pub proof fn law_module_name_round_trip(m: Module)
    ensures
        module_named(module_name(m)) == Some(m),
{
    reveal_strlit("言语理解与表达");
    reveal_strlit("判断推理");
    reveal_strlit("数量关系");
    reveal_strlit("资料分析");
    reveal_with_fuel(first_module_named, 5);
    assert("言语理解与表达"@.len() == 7);
    assert("判断推理"@.len() == 4);
    assert("数量关系"@.len() == 4);
    assert("资料分析"@.len() == 4);
    assert("判断推理"@[0] != "数量关系"@[0]);
    assert("判断推理"@[0] != "资料分析"@[0]);
    assert("数量关系"@[0] != "资料分析"@[0]);
}

/// Looking a sub-category up by its official name gives the sub-category back.
pub proof fn law_sub_category_name_round_trip(s: SubCategory)
    ensures
        sub_category_named(sub_category_name(s)) == Some(s),
{
    reveal_strlit("逻辑填空");
    reveal_strlit("片段阅读");
    reveal_strlit("语句表达");
    reveal_strlit("图形推理");
    reveal_strlit("定义判断");
    reveal_strlit("类比推理");
    reveal_strlit("逻辑判断");
    reveal_strlit("数学运算");
    reveal_strlit("数字推理");
    reveal_with_fuel(first_sub_category_named, 10);
    let all = seq![
        SubCategory::LogicalFill,
        SubCategory::PassageReading,
        SubCategory::SentenceExpression,
        SubCategory::FigureReasoning,
        SubCategory::DefinitionJudgment,
        SubCategory::AnalogyReasoning,
        SubCategory::LogicalJudgment,
        SubCategory::MathOperation,
        SubCategory::NumberReasoning,
    ];
    assert(all_sub_categories() =~= all);
    assert forall|i: int, j: int| 0 <= i < j < 9 implies sub_category_name(all[i]) != sub_category_name(all[j]) by {
        let a = sub_category_name(all[i]);
        let b = sub_category_name(all[j]);
        assert(a[0] != b[0] || a[1] != b[1] || a[2] != b[2] || a[3] != b[3]);
    }
}

/// The classification is closed and consistent: each sub-category listed under
/// a module belongs to that module, and each sub-category is listed under the
/// module it belongs to.
pub proof fn law_classification_consistent(m: Module, s: SubCategory)
    ensures
        module_sub_categories(m).contains(s) <==> sub_category_module(s) == m,
{
    let subs = module_sub_categories(m);
    if sub_category_module(s) == m {
        match s {
            SubCategory::LogicalFill => assert(subs[0] == s),
            SubCategory::PassageReading => assert(subs[1] == s),
            SubCategory::SentenceExpression => assert(subs[2] == s),
            SubCategory::FigureReasoning => assert(subs[0] == s),
            SubCategory::DefinitionJudgment => assert(subs[1] == s),
            SubCategory::AnalogyReasoning => assert(subs[2] == s),
            SubCategory::LogicalJudgment => assert(subs[3] == s),
            SubCategory::MathOperation => assert(subs[0] == s),
            SubCategory::NumberReasoning => assert(subs[1] == s),
        }
    }
    if subs.contains(s) {
        let i = choose|i: int| 0 <= i < subs.len() && subs[i] == s;
        assert(sub_category_module(subs[i]) == m);
    }
}

} // verus!
