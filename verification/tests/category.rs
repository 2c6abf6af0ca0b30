//! The two-level official classification: modules and their sub-categories.

use emark_syntax::{Module, SubCategory};

#[test]
fn every_module_is_found_again_by_its_name() {
    for module in Module::ALL {
        assert_eq!(Module::from_name(module.name()), Some(module));
    }
}

#[test]
fn modules_have_their_official_names() {
    assert_eq!(Module::VerbalComprehension.name(), "言语理解与表达");
    assert_eq!(Module::JudgmentReasoning.name(), "判断推理");
    assert_eq!(Module::QuantitativeRelations.name(), "数量关系");
    assert_eq!(Module::DataAnalysis.name(), "资料分析");
}

#[test]
fn an_unofficial_module_name_is_not_found() {
    assert_eq!(Module::from_name("常识判断"), None);
    assert_eq!(Module::from_name(""), None);
}

#[test]
fn sub_categories_are_listed_in_official_order() {
    assert_eq!(
        Module::VerbalComprehension.sub_categories(),
        [
            SubCategory::LogicalFill,
            SubCategory::PassageReading,
            SubCategory::SentenceExpression
        ]
    );
    assert_eq!(
        Module::JudgmentReasoning.sub_categories(),
        [
            SubCategory::FigureReasoning,
            SubCategory::DefinitionJudgment,
            SubCategory::AnalogyReasoning,
            SubCategory::LogicalJudgment
        ]
    );
    assert_eq!(
        Module::QuantitativeRelations.sub_categories(),
        [SubCategory::MathOperation, SubCategory::NumberReasoning]
    );
    assert!(Module::DataAnalysis.sub_categories().is_empty());
}

#[test]
fn every_sub_category_is_found_again_and_belongs_to_its_module() {
    for module in Module::ALL {
        for sub_category in module.sub_categories() {
            assert_eq!(SubCategory::from_name(sub_category.name()), Some(*sub_category));
            assert_eq!(sub_category.module(), module);
        }
    }
}

#[test]
fn sub_categories_have_their_official_names() {
    assert_eq!(SubCategory::LogicalFill.name(), "逻辑填空");
    assert_eq!(SubCategory::DefinitionJudgment.name(), "定义判断");
    assert_eq!(SubCategory::NumberReasoning.name(), "数字推理");
    assert_eq!(SubCategory::from_name("图形推理"), Some(SubCategory::FigureReasoning));
    assert_eq!(SubCategory::from_name("资料分析"), None);
}
