//! Traceback error scene of the showcase: a made-up failure with source
//! lines to show next to its frames.
use vstd::prelude::*;

verus! {

/// Traceback error scene: demonstrates exception rendering.
#[derive(Debug, Clone, Copy)]
pub struct TracebackScene;

impl TracebackScene {
    /// The scene.
    pub fn new() -> (scene: TracebackScene) {
        TracebackScene
    }

    /// The name by which the scene is chosen.
    pub fn name(&self) -> (name: &'static str)
        ensures
            name@ == "traceback"@,
    {
        "traceback"
    }

    /// One line on what the scene shows.
    pub fn summary(&self) -> (summary: &'static str)
        ensures
            summary@ == "Controlled error with Traceback + exception panel."@,
    {
        "Controlled error with Traceback + exception panel."
    }
}

/// Where the last part of a path begins when the path is read from
/// position `i` on and broken at every `"::"`, from left to right; `start` is
/// where the part that is being read began.
pub open spec fn last_part_start(path: Seq<char>, i: int, start: int) -> int
    decreases path.len() - i,
{
    if i < 0 || i + 1 >= path.len() {
        start
    } else if path[i] == ':' && path[i + 1] == ':' {
        last_part_start(path, i + 2, i + 2)
    } else {
        last_part_start(path, i + 1, start)
    }
}

/// The part of a function's path behind its last `"::"`.
pub open spec fn function_name(path: Seq<char>) -> Seq<char> {
    path.skip(last_part_start(path, 0, 0))
}

/// The made-up source lines shown for a function: four lines, indented by
/// four spaces, chosen by the function's name.
pub open spec fn source_context(function: Seq<char>) -> Seq<char> {
    let name = function_name(function);
    if name == "connect"@ {
        "    let pool = ConnectionPool::new(config)?;\n    pool.set_timeout(Duration::from_secs(30));\n    pool.connect().await?;  // <-- timeout here\n    Ok(pool)"@
    } else if name == "mark_complete"@ {
        "    let conn = self.pool.get().await?;\n    conn.execute(UPDATE_QUERY, &[&deployment_id])?;\n    self.notify_completion(deployment_id)?;\n    Ok(())"@
    } else if name == "run"@ {
        "    info!(\"Starting stage: {}\", self.name);\n    self.pre_checks()?;\n    self.execute_tasks().await?;\n    self.post_checks()?;"@
    } else {
        "    // Function: "@ + name
            + "\n    let result = operation()?;\n    process(result)?;\n    Ok(())"@
    }
}

/// Generate synthetic source context for a function.
pub fn generate_source_context(function: &str) -> (out: String)
    ensures
        out@ == source_context(function@),
{
    let chars = crate::strings::chars_of(function);
    let mut start: usize = 0;
    let mut i: usize = 0;
    while i < chars.len() && i + 1 < chars.len()
        invariant
            start <= i <= chars.len(),
            last_part_start(chars@, i as int, start as int) == last_part_start(chars@, 0, 0),
        decreases chars.len() - i,
    {
        if chars[i] == ':' && chars[i + 1] == ':' {
            i = i + 2;
            start = i;
        } else {
            i = i + 1;
        }
    }
    let name = crate::strings::string_of(&chars, start, chars.len());
    proof {
        assert(chars@.subrange(start as int, chars.len() as int) =~= chars@.skip(start as int));
    }
    if crate::strings::same_text(name.as_str(), "connect") {
        String::from_str(
            "    let pool = ConnectionPool::new(config)?;\n    pool.set_timeout(Duration::from_secs(30));\n    pool.connect().await?;  // <-- timeout here\n    Ok(pool)",
        )
    } else if crate::strings::same_text(name.as_str(), "mark_complete") {
        String::from_str(
            "    let conn = self.pool.get().await?;\n    conn.execute(UPDATE_QUERY, &[&deployment_id])?;\n    self.notify_completion(deployment_id)?;\n    Ok(())",
        )
    } else if crate::strings::same_text(name.as_str(), "run") {
        String::from_str(
            "    info!(\"Starting stage: {}\", self.name);\n    self.pre_checks()?;\n    self.execute_tasks().await?;\n    self.post_checks()?;",
        )
    } else {
        let mut out = String::from_str("    // Function: ");
        out.append(name.as_str());
        out.append("\n    let result = operation()?;\n    process(result)?;\n    Ok(())");
        out
    }
}

} // verus!
