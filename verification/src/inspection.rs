//! Static analysis of a single source file.
use crate::cli::Format;
use crate::decision::{decisions_of, decompose, DecisionTree, DecisionTreeView};
use crate::masking::{analyze, enumerable, matrix_of, IndependenceMatrix, MatrixView, Variant};
use crate::mir::{mir_of_text, parse_text};
use crate::report::{analysed_matrix_is_complete, static_report, static_text};
use crate::text::decimal;
use vstd::prelude::*;
use vstd::string::*;

verus! {

/// The decisions of a MIR dump, or what is wrong with it.
pub open spec fn tree_of_text(text: Seq<char>) -> Result<DecisionTreeView, Seq<char>> {
    match mir_of_text(text) {
        Ok(mir) => Ok(DecisionTreeView { decisions: decisions_of(mir.functions) }),
        Err(e) => Err(
            "parse MIR: "@ + "MIR parse error at line "@ + decimal(e.line) + ": "@ + e.message,
        ),
    }
}

/// Recovers the decisions of a MIR dump.
pub fn recover_decisions(text: &str) -> (r: Result<DecisionTree, String>)
    ensures
        match r {
            Ok(tree) => tree_of_text(text@) == Ok::<DecisionTreeView, Seq<char>>(tree.deep_view()),
            Err(e) => tree_of_text(text@) == Err::<DecisionTreeView, Seq<char>>(e@),
        },
{
    match parse_text(text) {
        Ok(mir) => {
            let tree = decompose(&mir);
            assert(tree.deep_view() == (DecisionTreeView {
                decisions: decisions_of(mir.deep_view().functions),
            }));
            Ok(tree)
        },
        Err(e) => {
            let mut message = String::new();
            message.append("parse MIR: ");
            message.append(e.to_string().as_str());
            assert(message@ =~= "parse MIR: "@ + "MIR parse error at line "@ + decimal(
                e.line as nat,
            ) + ": "@ + e.message@);
            Err(message)
        },
    }
}

/// What is shown of a static analysis.
#[derive(Debug, Clone)]
pub enum Inspection {
    /// Text to print.
    Text(String),
    /// A matrix to serialise.
    Matrix(IndependenceMatrix),
    /// Nothing; the format makes no sense here.
    Refused {
        /// Why.
        message: String,
    },
}

/// The model of an [`Inspection`].
pub enum InspectionView {
    Text(Seq<char>),
    Matrix(MatrixView),
    Refused { message: Seq<char> },
}

impl DeepView for Inspection {
    type V = InspectionView;

    open spec fn deep_view(&self) -> InspectionView {
        match *self {
            Inspection::Text(s) => InspectionView::Text(s@),
            Inspection::Matrix(m) => InspectionView::Matrix(m.deep_view()),
            Inspection::Refused { message } => InspectionView::Refused { message: message@ },
        }
    }
}

/// What is shown of the decisions of a source file in a format. JUnit has no
/// verdicts to show.
pub open spec fn inspected(
    source: Seq<char>,
    tree: DecisionTreeView,
    format: Format,
) -> InspectionView {
    let matrix = matrix_of(tree.decisions, Variant::Masking);
    match format {
        Format::Text => InspectionView::Text(static_text(source, tree.decisions.len(), matrix)),
        Format::Json => InspectionView::Matrix(matrix),
        Format::Junit => InspectionView::Refused {
            message:
                "--format=junit is only meaningful in runtime mode (use `cargo floyd test`). Static analysis has no test verdicts to render."@,
        },
    }
}

/// Analyses the decisions of a source file and shows them in a format.
pub fn inspect(source: &str, tree: &DecisionTree, format: Format) -> (r: Inspection)
    requires
        enumerable(tree.deep_view()),
    ensures
        r.deep_view() == inspected(source@, tree.deep_view(), format),
{
    let matrix = analyze(tree);
    proof {
        analysed_matrix_is_complete(tree.deep_view().decisions, Variant::Masking);
    }
    match format {
        Format::Text => Inspection::Text(static_report(source, tree.decisions.len(), &matrix)),
        Format::Json => Inspection::Matrix(matrix),
        Format::Junit => Inspection::Refused {
            message:
                "--format=junit is only meaningful in runtime mode (use `cargo floyd test`). Static analysis has no test verdicts to render.".to_owned(),
        },
    }
}

/// A static inspection shows the masking analysis of the first decision: as
/// text with the number of decisions, or as the matrix itself. JUnit is
/// refused.
pub proof fn inspection_shows_the_masking_analysis(
    source: Seq<char>,
    tree: DecisionTreeView,
    format: Format,
)
    ensures
        inspected(source, tree, Format::Json) == InspectionView::Matrix(
            matrix_of(tree.decisions, Variant::Masking),
        ),
        inspected(source, tree, Format::Text) == InspectionView::Text(
            static_text(source, tree.decisions.len(), matrix_of(tree.decisions, Variant::Masking)),
        ),
        inspected(source, tree, format) is Refused <==> format == Format::Junit,
{
}

/// The decisions of a dump are those of the functions that it holds, and a
/// dump that cannot be read has none.
pub proof fn dump_gives_the_decisions_of_its_functions(text: Seq<char>)
    ensures
        tree_of_text(text) is Ok <==> mir_of_text(text) is Ok,
        mir_of_text(text) matches Ok(mir) ==> (tree_of_text(text)->Ok_0).decisions == decisions_of(
            mir.functions,
        ),
{
}

} // verus!
