//! The job matrix: one classifier invocation for each pair of an input file
//! and a reference database whose output is not on disk yet.

use vstd::prelude::*;
use vstd::string::*;
use crate::config::{Config, ReadLength};
use crate::error::{ConfigFault, PipelineError};
use crate::text::{base_name, base_name_of, decimal, decimal_of, join, joined, views};

verus! {

/// One invocation of the classifier and the file it will write.
#[derive(Debug)]
pub struct Job {
    /// The command line, program name first.
    pub command: String,
    /// The path of the combined output.
    pub output: String,
}

impl View for Job {
    /// The command line and the output path.
    type V = (Seq<char>, Seq<char>);

    open spec fn view(&self) -> (Seq<char>, Seq<char>) {
        (self.command@, self.output@)
    }
}

/// The views of a batch of jobs.
pub open spec fn job_views(jobs: Seq<Job>) -> Seq<(Seq<char>, Seq<char>)> {
    Seq::new(jobs.len(), |i: int| jobs[i]@)
}

/// `name` below `dir`: a separator stands between them unless `dir` is empty
/// or already ends with one.
pub open spec fn joined_path(dir: Seq<char>, name: Seq<char>) -> Seq<char> {
    if dir.len() == 0 || dir.last() == '/' {
        dir + name
    } else {
        dir + seq!['/'] + name
    }
}

/// Where the output of classifying `file` against `db` goes: below `out_dir`,
/// named by the two base names with a dot between them.
pub open spec fn output_path_of(out_dir: Seq<char>, file: Seq<char>, db: Seq<char>) -> Seq<char> {
    joined_path(out_dir, base_name_of(file) + seq!['.'] + base_name_of(db))
}

/// The option words that every command of a run carries.
pub open spec fn option_args_of(cfg: &Config) -> Seq<Seq<char>> {
    seq!["--counts"@, "--preds"@, "--stats"@] + (match cfg.othresh {
        Some(n) => seq!["--othresh "@ + decimal_of(n as nat)],
        None => Seq::empty(),
    }) + (match cfg.pthresh {
        Some(n) => seq!["--pthresh "@ + decimal_of(n as nat)],
        None => Seq::empty(),
    }) + seq![
        match cfg.read_length {
            ReadLength::LongReads => "--long"@,
            ReadLength::ShortReads => "--short"@,
        },
    ]
}

/// The command line that classifies `file` against `db` into `out`.
pub open spec fn command_of(cfg: &Config, out: Seq<char>, db: Seq<char>, file: Seq<char>) -> Seq<
    char,
> {
    "uproc-dna "@ + joined(option_args_of(cfg), " "@) + " -o "@ + out + " "@ + db + " "@
        + cfg.uproc_model_dir@ + " "@ + file
}

/// The jobs of one pair: none if the file has no name or the output exists,
/// else one.
pub open spec fn pair_jobs(
    cfg: &Config,
    file: Seq<char>,
    db: Seq<char>,
    existing: Seq<Seq<char>>,
) -> Seq<(Seq<char>, Seq<char>)> {
    let out = output_path_of(cfg.out_dir@, file, db);
    if base_name_of(file).len() == 0 || existing.contains(out) {
        Seq::empty()
    } else {
        seq![(command_of(cfg, out, db, file), out)]
    }
}

/// The jobs of one file, in the order of the databases.
pub open spec fn file_jobs(
    cfg: &Config,
    file: Seq<char>,
    dbs: Seq<Seq<char>>,
    existing: Seq<Seq<char>>,
) -> Seq<(Seq<char>, Seq<char>)>
    decreases dbs.len(),
{
    if dbs.len() == 0 {
        Seq::empty()
    } else {
        file_jobs(cfg, file, dbs.drop_last(), existing) + pair_jobs(
            cfg,
            file,
            dbs.last(),
            existing,
        )
    }
}

/// The batch of a run: the jobs of each file in turn, where `existing` lists
/// the paths that are on disk.
pub open spec fn batch_of(
    cfg: &Config,
    files: Seq<Seq<char>>,
    dbs: Seq<Seq<char>>,
    existing: Seq<Seq<char>>,
) -> Seq<(Seq<char>, Seq<char>)>
    decreases files.len(),
{
    if files.len() == 0 {
        Seq::empty()
    } else {
        batch_of(cfg, files.drop_last(), dbs, existing) + file_jobs(
            cfg,
            files.last(),
            dbs,
            existing,
        )
    }
}

/// Puts `name` below `dir`.
pub fn join_path(dir: &str, name: &str) -> (path: String)
    ensures
        path@ == joined_path(dir@, name@),
{
    let n: usize = dir.unicode_len();
    let mut path = String::from_str(dir);
    if n > 0 && dir.get_char(n - 1) != '/' {
        proof {
            reveal_strlit("/");
            assert("/"@ =~= seq!['/']);
        }
        path.append("/");
    }
    path.append(name);
    path
}

/// The path of the combined output for `file` and `db`.
pub fn output_path(out_dir: &str, file: &str, db: &str) -> (path: String)
    ensures
        path@ == output_path_of(out_dir@, file@, db@),
{
    let mut name = String::from_str(base_name(file));
    proof {
        reveal_strlit(".");
        assert("."@ =~= seq!['.']);
    }
    name.append(".");
    name.append(base_name(db));
    join_path(out_dir, name.as_str())
}

/// The option words that every command of a run carries.
pub fn option_args(cfg: &Config) -> (args: Vec<String>)
    ensures
        views(args@) == option_args_of(cfg),
{
    let mut args: Vec<String> = Vec::new();
    args.push(String::from_str("--counts"));
    args.push(String::from_str("--preds"));
    args.push(String::from_str("--stats"));
    if let Some(n) = cfg.othresh {
        let mut word = String::from_str("--othresh ");
        word.append(decimal(n as u64).as_str());
        args.push(word);
    }
    if let Some(n) = cfg.pthresh {
        let mut word = String::from_str("--pthresh ");
        word.append(decimal(n as u64).as_str());
        args.push(word);
    }
    match cfg.read_length {
        ReadLength::LongReads => args.push(String::from_str("--long")),
        ReadLength::ShortReads => args.push(String::from_str("--short")),
    }
    proof {
        assert(views(args@) =~= option_args_of(cfg));
    }
    args
}

/// The command line that classifies `file` against `db` into `out`.
pub fn command(cfg: &Config, out: &str, db: &str, file: &str) -> (line: String)
    ensures
        line@ == command_of(cfg, out@, db@, file@),
{
    let args = option_args(cfg);
    let mut line = String::from_str("uproc-dna ");
    line.append(join(&args, " ").as_str());
    line.append(" -o ");
    line.append(out);
    line.append(" ");
    line.append(db);
    line.append(" ");
    line.append(cfg.uproc_model_dir.as_str());
    line.append(" ");
    line.append(file);
    line
}

/// Tells whether `list` holds `s`.
pub fn contains_text(list: &Vec<String>, s: &str) -> (r: bool)
    ensures
        r == views(list@).contains(s@),
{
    let wanted = String::from_str(s);
    let mut i: usize = 0;
    while i < list.len()
        invariant
            i <= list.len(),
            wanted@ == s@,
            forall|j: int| 0 <= j < i ==> views(list@)[j] != s@,
        decreases list.len() - i,
    {
        if list[i] == wanted {
            proof {
                assert(views(list@)[i as int] == s@);
            }
            return true;
        }
        i += 1;
    }
    false
}

/// Builds the batch of a run. `existing` lists the paths that are on disk: a
/// pair whose output is among them is left out, and so is a file without a
/// name. An empty list of files or of databases is refused; an empty batch
/// is not an error.
pub fn build_jobs(
    cfg: &Config,
    files: &Vec<String>,
    dbs: &Vec<String>,
    existing: &Vec<String>,
) -> (r: Result<Vec<Job>, PipelineError>)
    ensures
        files.len() == 0 ==> r is Err && r->Err_0 is NoInput,
        files.len() > 0 && dbs.len() == 0 ==> r is Err && r->Err_0 == PipelineError::Configuration(
            ConfigFault::NoDatabases,
        ),
        files.len() > 0 && dbs.len() > 0 ==> r is Ok && job_views(r->Ok_0@) == batch_of(
            cfg,
            views(files@),
            views(dbs@),
            views(existing@),
        ),
{
    if files.len() == 0 {
        return Err(PipelineError::NoInput);
    }
    if dbs.len() == 0 {
        return Err(PipelineError::Configuration(ConfigFault::NoDatabases));
    }
    let ghost fs = views(files@);
    let ghost ds = views(dbs@);
    let ghost ex = views(existing@);
    let mut jobs: Vec<Job> = Vec::new();
    let mut i: usize = 0;
    proof {
        assert(job_views(jobs@) =~= batch_of(cfg, fs.take(0), ds, ex));
    }
    while i < files.len()
        invariant
            i <= files.len(),
            fs == views(files@),
            ds == views(dbs@),
            ex == views(existing@),
            job_views(jobs@) == batch_of(cfg, fs.take(i as int), ds, ex),
        decreases files.len() - i,
    {
        let file = files[i].as_str();
        let named: bool = base_name(file).unicode_len() > 0;
        let mut j: usize = 0;
        proof {
            assert(fs.take(i + 1).drop_last() =~= fs.take(i as int));
            assert(fs.take(i + 1).last() == file@);
            assert(file_jobs(cfg, file@, ds.take(0), ex) =~= Seq::empty());
            assert(job_views(jobs@) =~= batch_of(cfg, fs.take(i as int), ds, ex) + file_jobs(
                cfg,
                file@,
                ds.take(0),
                ex,
            ));
        }
        while j < dbs.len()
            invariant
                j <= dbs.len(),
                i < files.len(),
                file@ == fs[i as int],
                named == (base_name_of(file@).len() > 0),
                fs == views(files@),
                ds == views(dbs@),
                ex == views(existing@),
                job_views(jobs@) == batch_of(cfg, fs.take(i as int), ds, ex) + file_jobs(
                    cfg,
                    file@,
                    ds.take(j as int),
                    ex,
                ),
            decreases dbs.len() - j,
        {
            let db = dbs[j].as_str();
            let ghost before = job_views(jobs@);
            proof {
                assert(ds.take(j + 1).drop_last() =~= ds.take(j as int));
                assert(ds.take(j + 1).last() == db@);
            }
            if named {
                let out = output_path(cfg.out_dir.as_str(), file, db);
                if !contains_text(existing, out.as_str()) {
                    let line = command(cfg, out.as_str(), db, file);
                    jobs.push(Job { command: line, output: out });
                    proof {
                        assert(job_views(jobs@) =~= before + pair_jobs(cfg, file@, db@, ex));
                    }
                }
            }
            proof {
                assert(job_views(jobs@) =~= before + pair_jobs(cfg, file@, db@, ex));
                assert(job_views(jobs@) =~= batch_of(cfg, fs.take(i as int), ds, ex) + file_jobs(
                    cfg,
                    file@,
                    ds.take(j + 1),
                    ex,
                ));
            }
            j += 1;
        }
        proof {
            assert(ds.take(dbs.len() as int) =~= ds);
        }
        i += 1;
    }
    proof {
        assert(fs.take(files.len() as int) =~= fs);
    }
    Ok(jobs)
}

/// A file's jobs are empty once the outputs of its first batch are on disk.
proof fn lemma_file_rebuild(
    cfg: &Config,
    file: Seq<char>,
    dbs: Seq<Seq<char>>,
    before: Seq<Seq<char>>,
    after: Seq<Seq<char>>,
)
    requires
        forall|j: int|
            0 <= j < dbs.len() ==> !before.contains(
                #[trigger] output_path_of(cfg.out_dir@, file, dbs[j]),
            ),
        forall|k: int|
            0 <= k < file_jobs(cfg, file, dbs, before).len() ==> after.contains(
                (#[trigger] file_jobs(cfg, file, dbs, before)[k]).1,
            ),
    ensures
        file_jobs(cfg, file, dbs, after).len() == 0,
    decreases dbs.len(),
{
    if dbs.len() > 0 {
        let head = file_jobs(cfg, file, dbs.drop_last(), before);
        let whole = file_jobs(cfg, file, dbs, before);
        assert forall|k: int| 0 <= k < head.len() implies after.contains((#[trigger] head[k]).1) by {
            assert(whole[k] == head[k]);
        }
        assert forall|j: int| 0 <= j < dbs.drop_last().len() implies !before.contains(
            #[trigger] output_path_of(cfg.out_dir@, file, dbs.drop_last()[j]),
        ) by {
            assert(dbs.drop_last()[j] == dbs[j]);
        }
        lemma_file_rebuild(cfg, file, dbs.drop_last(), before, after);
        let out = output_path_of(cfg.out_dir@, file, dbs.last());
        assert(out == output_path_of(cfg.out_dir@, file, dbs[dbs.len() - 1]));
        if base_name_of(file).len() > 0 {
            assert(whole[head.len() as int].1 == out);
        }
    }
}

/// Building is idempotent: where no output of the matrix was on disk before
/// the first batch was built, and every output of that batch is on disk
/// afterwards, the batch built then is empty.
pub proof fn lemma_rebuild_is_empty(
    cfg: &Config,
    files: Seq<Seq<char>>,
    dbs: Seq<Seq<char>>,
    before: Seq<Seq<char>>,
    after: Seq<Seq<char>>,
)
    requires
        forall|i: int, j: int|
            0 <= i < files.len() && 0 <= j < dbs.len() ==> !before.contains(
                #[trigger] output_path_of(cfg.out_dir@, files[i], dbs[j]),
            ),
        forall|k: int|
            0 <= k < batch_of(cfg, files, dbs, before).len() ==> after.contains(
                (#[trigger] batch_of(cfg, files, dbs, before)[k]).1,
            ),
    ensures
        batch_of(cfg, files, dbs, after).len() == 0,
    decreases files.len(),
{
    if files.len() > 0 {
        let rest = files.drop_last();
        let head = batch_of(cfg, rest, dbs, before);
        let tail = file_jobs(cfg, files.last(), dbs, before);
        let whole = batch_of(cfg, files, dbs, before);
        assert forall|k: int| 0 <= k < head.len() implies after.contains((#[trigger] head[k]).1) by {
            assert(whole[k] == head[k]);
        }
        assert forall|i: int, j: int| 0 <= i < rest.len() && 0 <= j < dbs.len() implies !before.contains(
            #[trigger] output_path_of(cfg.out_dir@, rest[i], dbs[j]),
        ) by {
            assert(rest[i] == files[i]);
        }
        lemma_rebuild_is_empty(cfg, rest, dbs, before, after);
        assert forall|k: int| 0 <= k < tail.len() implies after.contains((#[trigger] tail[k]).1) by {
            assert(whole[head.len() + k] == tail[k]);
        }
        assert forall|j: int| 0 <= j < dbs.len() implies !before.contains(
            #[trigger] output_path_of(cfg.out_dir@, files.last(), dbs[j]),
        ) by {
            assert(files.last() == files[files.len() - 1]);
        }
        lemma_file_rebuild(cfg, files.last(), dbs, before, after);
    }
}

} // verus!
