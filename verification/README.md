# Kei

A small self-hosted build server. A push to GitHub, or a request from a private network, makes Kei
bring the project's workspace up to date, run the configured steps, keep the files that match the
configured patterns, and serve them over HTTP.

What the server decides and computes is a library verified with Verus; the program around it reads
and writes files, runs processes and speaks HTTP.

## Layout

```
src/           the verified library
  text.rs      splitting, trimming, replacing and comparing texts
  numbers.rs   numerals, and sizes for people
  paths.rs     paths of files
  time.rs      points in time
  html.rs      escaping, and the frame of a page
  list.rs      the first element that meets a condition
  outside.rs   what is taken on trust from hmac, sha2, hex, uuid and chrono
  config.rs    the configuration
  auth.rs      accounts, visibility, and signed links
  state.rs     the builds, and what is kept of them
  request.rs   what is read of a request
  error.rs     errors that requests are answered with
  webhook.rs   GitHub's webhook: signature, and what a push leads to
  routes.rs    the programming interface
  views.rs     pages
  tree.rs      artifacts and the Maven repository as files
  git.rs       git commands and what their output means
  runner.rs    the command of a step, and waiting for it
  artifacts.rs which files are kept, and under which names
  pipeline.rs  the order of a build, and what is recorded of it
  notify.rs    messages to Discord
tests/         tests of the library
app/           the program
```

Each public function says in its contract what it returns or changes. Public proof functions whose
names begin with `law_` state what holds of the library as a whole: that signed links are accepted
for what they were made for and for nothing else, that a browser reads back escaped text, that what
a build keeps is what its address serves, that a build succeeds exactly when all of its parts did,
and so on.
