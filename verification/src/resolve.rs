//! The steps that build the context of a run.
//!
//! A run asks the history of the repository and parses headers between these
//! steps. Each step takes what was asked or parsed as plain values and says
//! what follows from it.

use crate::error::{CatError, CatErrorView};
use crate::models::{Teacher, TeacherCard, TeacherCardView, TeacherView};
use crate::path::{components, DocPath};
use crate::search::{first_where, lemma_first_where};
use crate::sorting::Keyed;
use crate::text::{ends_with, lines, split_lines, trim, trimmed};
use vstd::prelude::*;

verus! {

/// What a [`CommandOutput`] holds, as plain values.
pub struct CommandOutputView {
    pub status: i32,
    pub stdout: Seq<char>,
    pub stderr: Seq<char>,
}

/// How a command ended and what it wrote.
#[derive(Debug)]
pub struct CommandOutput {
    /// The status that the command ended with; zero where it succeeded.
    pub status: i32,
    /// What it wrote to its output stream.
    pub stdout: String,
    /// What it wrote to its error stream.
    pub stderr: String,
}

impl DeepView for CommandOutput {
    type V = CommandOutputView;

    open spec fn deep_view(&self) -> CommandOutputView {
        CommandOutputView { status: self.status, stdout: self.stdout@, stderr: self.stderr@ }
    }
}

impl View for CommandOutput {
    type V = CommandOutputView;

    open spec fn view(&self) -> CommandOutputView {
        self.deep_view()
    }
}

/// The word by which the repository says that one stands in its work tree.
pub open spec fn yes_word() -> Seq<char> {
    seq!['t', 'r', 'u', 'e']
}

/// Whether the answer to the question "is this inside a work tree" says yes:
/// the command succeeded and wrote the word `true`, white space around it
/// aside.
pub open spec fn inside_work_tree(answer: CommandOutputView) -> bool {
    answer.status == 0 && trimmed(answer.stdout) == yes_word()
}

/// Tells from the repository's answer whether the run stands inside a work
/// tree, and fails where it does not, with what the command wrote to its
/// error stream.
pub fn check_repository(answer: &CommandOutput) -> (end: Result<(), CatError>)
    ensures
        match end {
            Ok(()) => inside_work_tree(answer@),
            Err(e) => !inside_work_tree(answer@) && e@ == (CatErrorView::NotARepo {
                error: answer@.stderr,
            }),
        },
{
    let word = String::from_str("true");
    proof {
        reveal_strlit("true");
        assert(word@ =~= yes_word());
    }
    if answer.status == 0 && trim(answer.stdout.as_str()) == word {
        Ok(())
    } else {
        Err(CatError::NotARepo { error: answer.stderr.clone() })
    }
}

/// The error of a command of the repository that failed.
pub open spec fn command_failed(answer: CommandOutputView) -> CatErrorView {
    CatErrorView::CommandFailed {
        name: seq!['g', 'i', 't'],
        status: answer.status,
        error: answer.stderr,
    }
}

/// The error of a command of the repository that failed, see
/// [`command_failed`].
pub fn command_error(answer: &CommandOutput) -> (e: CatError)
    ensures
        e@ == command_failed(answer@),
{
    let name = String::from_str("git");
    proof {
        reveal_strlit("git");
        assert(name@ =~= seq!['g', 'i', 't']);
    }
    CatError::CommandFailed { name, status: answer.status, error: answer.stderr.clone() }
}

/// Tells what kind of thing stands where the teachers folder should: fails
/// where nothing does, and where a file does.
pub fn check_teachers_folder(exists: bool, is_file: bool) -> (end: Result<(), CatError>)
    ensures
        match end {
            Ok(()) => exists && !is_file,
            Err(e) => if !exists {
                e@ == CatErrorView::NoTeacherFolder
            } else {
                is_file && e@ == CatErrorView::TeachersArentFolder
            },
        },
{
    if !exists {
        Err(CatError::NoTeacherFolder)
    } else if is_file {
        Err(CatError::TeachersArentFolder)
    } else {
        Ok(())
    }
}

/// The ending of the names of the files that hold teachers' cards.
pub open spec fn card_ending() -> Seq<char> {
    seq!['.', 't', 'o', 'm', 'l']
}

/// Whether an entry of the teachers folder holds a teacher's card: it is a
/// file and its name ends with [`card_ending`].
pub fn is_teacher_file(file_name: &str, is_file: bool) -> (yes: bool)
    ensures
        yes == (is_file && card_ending().is_suffix_of(file_name@)),
{
    proof {
        reveal_strlit(".toml");
        assert(".toml"@ =~= card_ending());
    }
    is_file && ends_with(file_name, ".toml")
}

/// What a [`TeacherFile`] holds, as plain values.
pub struct TeacherFileView {
    pub name: Seq<char>,
    pub card: Result<TeacherCardView, Seq<char>>,
}

/// A file of the teachers folder and what parsing it gave: the card, or what
/// the parser said.
#[derive(Debug)]
pub struct TeacherFile {
    /// The name of the file.
    pub name: String,
    /// The card, or what the parser said.
    pub card: Result<TeacherCard, String>,
}

impl DeepView for TeacherFile {
    type V = TeacherFileView;

    open spec fn deep_view(&self) -> TeacherFileView {
        TeacherFileView {
            name: self.name@,
            card: match self.card {
                Ok(card) => Ok(card@),
                Err(said) => Err(said@),
            },
        }
    }
}

impl View for TeacherFile {
    type V = TeacherFileView;

    open spec fn view(&self) -> TeacherFileView {
        self.deep_view()
    }
}

/// Whether the file did not parse.
pub open spec fn is_bad_file(file: TeacherFileView) -> bool {
    file.card is Err
}

/// The card of a file that parsed.
pub open spec fn card_of_file(file: TeacherFileView) -> TeacherCardView {
    file.card->Ok_0
}

/// The cards of the teachers folder, from its files as parsed. Succeeds
/// where every file parsed, with the cards in the order of the files;
/// fails with the first file that did not.
pub fn read_teacher_cards(files: Vec<TeacherFile>) -> (end: Result<Vec<TeacherCard>, CatError>)
    ensures
        match end {
            Ok(cards) => first_where(files.deep_view(), |f: TeacherFileView| is_bad_file(f))
                == files.len() && cards.deep_view() == files.deep_view().map_values(
                |f: TeacherFileView| card_of_file(f),
            ),
            Err(e) => {
                let k = first_where(files.deep_view(), |f: TeacherFileView| is_bad_file(f));
                0 <= k < files.len() && e@ == (CatErrorView::InvalidTeacherCard {
                    name: files.deep_view()[k].name,
                    err: files.deep_view()[k].card->Err_0,
                })
            },
        },
{
    let ghost all = files.deep_view();
    let mut cards: Vec<TeacherCard> = Vec::new();
    let mut i: usize = 0;
    proof {
        assert(cards.deep_view() =~= all.take(0).map_values(|f: TeacherFileView| card_of_file(f)));
    }
    while i < files.len()
        invariant
            i <= files.len(),
            all == files.deep_view(),
            forall|j: int| 0 <= j < i ==> !is_bad_file(#[trigger] all[j]),
            cards.deep_view() == all.take(i as int).map_values(
                |f: TeacherFileView| card_of_file(f),
            ),
        decreases files.len() - i,
    {
        let ghost before = cards.deep_view();
        proof {
            assert(all[i as int] == files[i as int]@);
        }
        match &files[i].card {
            Ok(card) => {
                let copy = card.clone();
                cards.push(copy);
                proof {
                    assert(cards.deep_view() =~= before.push(copy@));
                    assert(all.take(i + 1).map_values(|f: TeacherFileView| card_of_file(f))
                        =~= before.push(card_of_file(all[i as int])));
                }
            },
            Err(said) => {
                proof {
                    lemma_first_where(all, |f: TeacherFileView| is_bad_file(f), i as int);
                }
                return Err(
                    CatError::InvalidTeacherCard {
                        name: files[i].name.clone(),
                        err: said.clone(),
                    },
                );
            },
        }
        i += 1;
    }
    proof {
        lemma_first_where(all, |f: TeacherFileView| is_bad_file(f), files.len() as int);
        assert(all.take(files.len() as int) =~= all);
    }
    Ok(cards)
}

impl Keyed for TeacherCard {
    open spec fn key_of(&self) -> Seq<char> {
        self.jmeno@
    }

    fn key(&self) -> (k: &str) {
        self.jmeno.as_str()
    }
}

/// What a [`TeacherAnswer`] holds, as plain values.
pub struct TeacherAnswerView {
    pub card: TeacherCardView,
    pub created: CommandOutputView,
}

/// A teacher's card and the repository's answer to the question which paths
/// the teacher created: one path a line.
#[derive(Debug)]
pub struct TeacherAnswer {
    /// The card.
    pub card: TeacherCard,
    /// The answer.
    pub created: CommandOutput,
}

impl DeepView for TeacherAnswer {
    type V = TeacherAnswerView;

    open spec fn deep_view(&self) -> TeacherAnswerView {
        TeacherAnswerView { card: self.card@, created: self.created@ }
    }
}

impl View for TeacherAnswer {
    type V = TeacherAnswerView;

    open spec fn view(&self) -> TeacherAnswerView {
        self.deep_view()
    }
}

/// Whether the repository's answer for the teacher is a failure.
pub open spec fn teacher_failed(answer: TeacherAnswerView) -> bool {
    answer.created.status != 0
}

/// The teacher of an answer: the card, the paths that the lines of the
/// answer name, and no subject or article yet.
pub open spec fn teacher_of(answer: TeacherAnswerView) -> TeacherView {
    TeacherView {
        card: answer.card,
        subjects: Seq::empty(),
        articles: Seq::empty(),
        files_created: lines(answer.created.stdout).map_values(|l: Seq<char>| components(l)),
    }
}

/// The paths that the lines of `text` name.
pub fn paths_of_lines(text: &str) -> (paths: Vec<DocPath>)
    ensures
        paths.deep_view() == lines(text@).map_values(|l: Seq<char>| components(l)),
{
    let ls = split_lines(text);
    let mut paths: Vec<DocPath> = Vec::new();
    let mut i: usize = 0;
    while i < ls.len()
        invariant
            i <= ls.len(),
            ls.deep_view() == lines(text@),
            paths.deep_view() == lines(text@).take(i as int).map_values(
                |l: Seq<char>| components(l),
            ),
        decreases ls.len() - i,
    {
        let ghost before = paths.deep_view();
        let path = DocPath::parse(ls[i].as_str());
        paths.push(path);
        proof {
            assert(ls.deep_view()[i as int] == ls[i as int]@);
            assert(paths.deep_view() =~= before.push(path@));
            assert(lines(text@).take(i + 1).map_values(|l: Seq<char>| components(l))
                =~= before.push(components(lines(text@)[i as int])));
        }
        i += 1;
    }
    proof {
        assert(lines(text@).take(ls.len() as int) =~= lines(text@));
    }
    paths
}

/// The teachers, from their cards and the repository's answers. Succeeds
/// where every answer is a success, with one teacher for each answer, in
/// order; fails with the first answer that is a failure.
pub fn build_teachers(answers: Vec<TeacherAnswer>) -> (end: Result<Vec<Teacher>, CatError>)
    ensures
        match end {
            Ok(teachers) => first_where(
                answers.deep_view(),
                |a: TeacherAnswerView| teacher_failed(a),
            ) == answers.len() && teachers.deep_view() == answers.deep_view().map_values(
                |a: TeacherAnswerView| teacher_of(a),
            ),
            Err(e) => {
                let k = first_where(answers.deep_view(), |a: TeacherAnswerView| teacher_failed(a));
                0 <= k < answers.len() && e@ == command_failed(answers.deep_view()[k].created)
            },
        },
{
    let ghost all = answers.deep_view();
    let mut teachers: Vec<Teacher> = Vec::new();
    let mut i: usize = 0;
    proof {
        assert(teachers.deep_view() =~= all.take(0).map_values(
            |a: TeacherAnswerView| teacher_of(a),
        ));
    }
    while i < answers.len()
        invariant
            i <= answers.len(),
            all == answers.deep_view(),
            forall|j: int| 0 <= j < i ==> !teacher_failed(#[trigger] all[j]),
            teachers.deep_view() == all.take(i as int).map_values(
                |a: TeacherAnswerView| teacher_of(a),
            ),
        decreases answers.len() - i,
    {
        let ghost before = teachers.deep_view();
        proof {
            assert(all[i as int] == answers[i as int]@);
        }
        if answers[i].created.status != 0 {
            proof {
                lemma_first_where(all, |a: TeacherAnswerView| teacher_failed(a), i as int);
            }
            return Err(command_error(&answers[i].created));
        }
        let teacher = Teacher {
            card: answers[i].card.clone(),
            subjects: Vec::new(),
            articles: Vec::new(),
            files_created: paths_of_lines(answers[i].created.stdout.as_str()),
        };
        proof {
            assert(teacher.subjects.deep_view() =~= Seq::<crate::models::SubjectView>::empty());
            assert(teacher.articles.deep_view() =~= Seq::<crate::models::ArticleView>::empty());
            assert(teacher@ == teacher_of(all[i as int]));
        }
        teachers.push(teacher);
        proof {
            assert(teachers.deep_view() =~= before.push(teacher@));
            assert(all.take(i + 1).map_values(|a: TeacherAnswerView| teacher_of(a)) =~= before.push(
                teacher_of(all[i as int]),
            ));
        }
        i += 1;
    }
    proof {
        lemma_first_where(all, |a: TeacherAnswerView| teacher_failed(a), answers.len() as int);
        assert(all.take(answers.len() as int) =~= all);
    }
    Ok(teachers)
}

} // verus!
