# bsc

A package manager for C projects built with CMake. `bsc create NAME` sets up
a project (git repository, `src/`, `test/`, `include/`, CMakeLists files and a
`dependencies.bsc` file); `bsc add [--git|--local|--zip] URL` fetches a module
and wires its headers and sources into the project's CMakeLists files.

Layout:

- `src/` is the verified library (Verus). It holds every text transformation
  the tool performs on the files it writes and rewrites, each with a contract
  stated over the lines of the file as `BufRead::lines` reads them:
  - `text.rs`, `lines.rs`: substring search and line splitting, with their
    specifications and lemmas;
  - `cmake.rs`: adding a module's headers and sources to CMakeLists files,
    checking whether a module was already added, and rewriting paths when a
    dependency moves up; `cmake_laws.rs` proves what these keep;
  - `include_path.rs`: rewriting the include lines of a module's C files and
    locating a header within its module; `include_path_laws.rs` proves that
    rewriting them twice gives the first result;
  - `dependencies.rs`: writing and reading `dependencies.bsc`;
    `dependencies_laws.rs` proves what these keep;
  - `project.rs`: the files of a new project and the kind of module to add.
- `app/` is the command-line program: argument parsing, file-system work,
  git, downloads and archive extraction. It reads a file, hands its text to the
  library and writes back what the library returns.
- `tests/` runs the library on concrete files.
